//! Where segments, sections and parts go.
use crate::alignment::Alignment;
use crate::layout_laws;
use crate::layout_sections;
use crate::layout_state;
use crate::layout_state::{LayoutContext, LayoutError, LayoutView};
use crate::output_order::OrderEvent;
use crate::output_section_id::{OutputSectionId, PartId};
use crate::output_section_part_map::OutputSectionPartMap;
use crate::output_sections::OutputSections;
use crate::part_placement;
use crate::program_segments::{ProgramSegmentId, ProgramSegments};
use crate::record_layout::OutputRecordLayout;
use crate::section_start;
use crate::section_start::SectionPlacement;
use crate::segment_alignments;
use vstd::arithmetic::power2::*;
use vstd::prelude::*;

verus! {

/// Whether a number is the least multiple of another one that is not below an offset.
pub open spec fn is_next_multiple(number: int, offset: int, value: int) -> bool {
    &&& value > 0
    &&& number % value == 0
    &&& offset <= number < offset + value
}

/// An offset that is rounded up goes to the next multiple of the alignment. It fails only where that
/// is not a 64-bit number.
pub proof fn lemma_up_goes_to_next_multiple(alignment: Alignment, offset: u64)
    ensures
        layout_state::up(alignment, offset) matches Some(end) ==> is_next_multiple(
            end as int,
            offset as int,
            alignment.bytes(),
        ),
        layout_state::up(alignment, offset) is None ==> offset + alignment.bytes() > u64::MAX,
        offset as int % alignment.bytes() == 0 ==> layout_state::up(alignment, offset) == Some(
            offset,
        ),
{
    lemma_pow2_pos(alignment.exp());
    crate::alignment::lemma_round_up(offset as int, alignment.bytes());
}

/// A sum of 64-bit numbers is their sum, and fails only where that is not a 64-bit number.
pub proof fn lemma_plus(a: u64, b: u64)
    ensures
        layout_state::plus(a, b) matches Some(sum) ==> sum == a + b,
        layout_state::plus(a, b) is None <==> a + b > u64::MAX,
{
}

/// Whether the alignments of the segments are ones that are supported.
pub open spec fn segment_alignments_supported<'a, 'data>(ctx: &LayoutContext<'a, 'data>) -> bool {
    forall|id: u64| #[trigger]
        ctx.segment_exponents().contains_key(id) ==> ctx.segment_exponents()[id] <= 16
}

proof fn lemma_segments_aligned_for_pages<'data>(
    sizes: &OutputSectionPartMap<u64>,
    segments: &ProgramSegments,
    events: Seq<OrderEvent<'data>>,
    base: Alignment,
    sections: &OutputSections<'data>,
    end: int,
)
    ensures
        forall|id: u64| #[trigger]
            segment_alignments::alignments_before(
                sizes,
                segments,
                events,
                base,
                sections,
                end,
            ).0.contains_key(id) ==> segment_alignments::alignments_before(
                sizes,
                segments,
                events,
                base,
                sections,
                end,
            ).0[id] >= base.exp(),
    decreases end,
{
    base.lemma_bytes_positive(base);
    if end > 0 {
        lemma_segments_aligned_for_pages(sizes, segments, events, base, sections, end - 1);
        let before = segment_alignments::alignments_before(
            sizes,
            segments,
            events,
            base,
            sections,
            end - 1,
        ).0;
        let after = segment_alignments::alignments_before(
            sizes,
            segments,
            events,
            base,
            sections,
            end,
        ).0;
        assert forall|id: u64| #[trigger] after.contains_key(id) implies after[id]
            >= base.exp() by {
            assert(before.contains_key(id) ==> before[id] >= base.exp());
        }
    }
}

/// When a segment that is loaded starts, and neither a linker script nor something in the file has a
/// say, everything goes to the next multiple of the segment's alignment: the file offset, the
/// address and the load address. All of them are multiples of the size of a page then, so segments
/// are in different pages, and the file offset is congruent to the address.
pub proof fn lemma_loaded_segment_starts_on_page<'a, 'data>(
    s: LayoutView,
    ctx: &LayoutContext<'a, 'data>,
    id: ProgramSegmentId,
    t: LayoutView,
)
    requires
        segment_alignments_supported(ctx),
        ctx.segments.def(id).loadable,
        s.pending_location is None,
        !s.pad_file_at_next_load,
        layout_sections::segment_start(s, ctx, id) == Ok::<_, LayoutError>(t),
    ensures
        ({
            let page = ctx.args.loadable_segment_alignment.bytes();
            let value = if ctx.segment_exponents().contains_key(id.0 as u64) {
                pow2(ctx.segment_exponents()[id.0 as u64] as nat) as int
            } else {
                page
            };
            &&& is_next_multiple(t.file_offset as int, s.file_offset as int, value)
            &&& is_next_multiple(t.mem_offset as int, s.mem_offset as int, value)
            &&& is_next_multiple(t.lma_offset as int, s.lma_offset as int, value)
            &&& t.file_offset as int % page == 0
            &&& t.mem_offset as int % page == 0
            &&& t.lma_offset as int % page == 0
            &&& t.file_offset as int % page == t.mem_offset as int % page
        }),
{
    let base = ctx.args.loadable_segment_alignment;
    let alignment = layout_sections::segment_alignment(ctx, id);
    base.lemma_bytes_positive(base);
    lemma_up_goes_to_next_multiple(alignment, s.file_offset);
    lemma_up_goes_to_next_multiple(alignment, s.mem_offset);
    lemma_up_goes_to_next_multiple(alignment, s.lma_offset);
    if ctx.segment_exponents().contains_key(id.0 as u64) {
        let exponent = ctx.segment_exponents()[id.0 as u64];
        Alignment::lemma_exp_of(exponent as nat);
        lemma_segments_aligned_for_pages(
            ctx.sizes,
            ctx.segments,
            ctx.order.events@,
            base,
            ctx.sections,
            ctx.order.events@.len() as int,
        );
        assert(exponent >= base.exp());
        crate::alignment::lemma_lower_power_divides(
            t.file_offset as int,
            base.exp(),
            exponent as nat,
        );
        crate::alignment::lemma_lower_power_divides(
            t.mem_offset as int,
            base.exp(),
            exponent as nat,
        );
        crate::alignment::lemma_lower_power_divides(
            t.lma_offset as int,
            base.exp(),
            exponent as nat,
        );
    }
}

/// However a loaded segment starts, its file offset is congruent to its address modulo the size of a
/// page, so that it can be mapped, and the file does not go back. An address that a linker script has
/// asked for is taken.
pub proof fn lemma_loaded_segment_can_be_mapped<'a, 'data>(
    s: LayoutView,
    ctx: &LayoutContext<'a, 'data>,
    id: ProgramSegmentId,
    t: LayoutView,
)
    requires
        segment_alignments_supported(ctx),
        ctx.segments.def(id).loadable,
        layout_sections::segment_start(s, ctx, id) == Ok::<_, LayoutError>(t),
    ensures
        ({
            let page = ctx.args.loadable_segment_alignment.bytes();
            &&& (t.file_offset - t.mem_offset) % page == 0
            &&& s.file_offset <= t.file_offset
            &&& s.pending_location matches Some(address) ==> t.mem_offset == address
            &&& s.pending_location is None && s.pad_file_at_next_load ==> t.mem_offset
                == s.mem_offset
            &&& s.pending_location is Some || s.pad_file_at_next_load ==> t.lma_offset
                == t.mem_offset && !t.pad_file_at_next_load
            &&& t.load_segment_depth == s.load_segment_depth + 1
            &&& t.load_origins == s.load_origins.push((t.mem_offset, t.lma_offset, t.file_offset))
            &&& t.section_layouts == s.section_layouts
            &&& t.records == s.records
        }),
{
    let base = ctx.args.loadable_segment_alignment;
    let alignment = layout_sections::segment_alignment(ctx, id);
    base.lemma_bytes_positive(base);
    alignment.lemma_bytes_positive(base);
    if ctx.segment_exponents().contains_key(id.0 as u64) {
        let exponent = ctx.segment_exponents()[id.0 as u64];
        Alignment::lemma_exp_of(exponent as nat);
        lemma_segments_aligned_for_pages(
            ctx.sizes,
            ctx.segments,
            ctx.order.events@,
            base,
            ctx.sections,
            ctx.order.events@.len() as int,
        );
    }
    assert(alignment.exp() >= base.exp());
    let distance = t.file_offset - t.mem_offset;
    if s.pending_location is Some || s.pad_file_at_next_load {
        crate::alignment::lemma_round_up_congruent(
            t.mem_offset as int,
            s.file_offset as int,
            alignment.bytes(),
        );
        lemma_congruent_distance(
            t.file_offset as int,
            t.mem_offset as int,
            alignment.bytes(),
        );
    } else {
        lemma_up_goes_to_next_multiple(alignment, s.file_offset);
        lemma_up_goes_to_next_multiple(alignment, s.mem_offset);
        lemma_congruent_distance(
            t.file_offset as int,
            t.mem_offset as int,
            alignment.bytes(),
        );
    }
    assert(distance % alignment.bytes() == 0);
    crate::alignment::lemma_lower_power_divides(distance, base.exp(), alignment.exp());
}

proof fn lemma_congruent_distance(a: int, b: int, value: int)
    requires
        value > 0,
        a % value == b % value,
    ensures
        (a - b) % value == 0,
{
    vstd::arithmetic::div_mod::lemma_fundamental_div_mod(a, value);
    vstd::arithmetic::div_mod::lemma_fundamental_div_mod(b, value);
    let q = a / value - b / value;
    assert(a - b == q * value) by (nonlinear_arith)
        requires
            a == value * (a / value) + a % value,
            b == value * (b / value) + b % value,
            a % value == b % value,
            q == a / value - b / value,
    ;
    vstd::arithmetic::div_mod::lemma_mod_multiples_basic(q, value);
}

/// Segments that are not loaded leave the layout alone, and the end of a segment undoes what its start
/// has opened: the segments that were open before are open again.
pub proof fn lemma_segment_end_closes<'a, 'data>(
    s: LayoutView,
    ctx: &LayoutContext<'a, 'data>,
    id: ProgramSegmentId,
)
    ensures
        !ctx.segments.def(id).loadable ==> layout_sections::segment_start(s, ctx, id) == Ok::<
            _,
            LayoutError,
        >(s) && layout_sections::segment_end(s, ctx, id) == s,
        layout_sections::segment_start(s, ctx, id) matches Ok(t) ==> {
            let closed = layout_sections::segment_end(t, ctx, id);
            &&& closed.load_origins == s.load_origins
            &&& closed.load_segment_depth == s.load_segment_depth
            &&& closed.file_offset == t.file_offset
            &&& closed.mem_offset == t.mem_offset
            &&& closed.lma_offset == t.lma_offset
        },
{
    if let Ok(t) = layout_sections::segment_start(s, ctx, id) {
        if ctx.segments.def(id).loadable {
            assert(t.load_origins.drop_last() =~= s.load_origins);
        }
    }
}

/// The exponent of the alignment of a part: the first one is aligned for the whole section, the
/// others are aligned as they ask for, but not more than the section.
pub open spec fn part_exponent<'a, 'data>(
    ctx: &LayoutContext<'a, 'data>,
    placement: SectionPlacement<'data>,
    part: PartId,
    is_first: bool,
) -> nat {
    let own = ctx.sections.alignment_of(part);
    let all = placement.max_alignment.exp();
    if is_first || own > all {
        all
    } else {
        own
    }
}

/// Whether a part has the size that was recorded for it: it is not the padding after what becomes
/// read-only, its inputs are not placed in the order of the command line, and no linker script gives
/// it a load address.
pub open spec fn is_plain_part<'a, 'data>(
    ctx: &LayoutContext<'a, 'data>,
    placement: SectionPlacement<'data>,
    part: PartId,
) -> bool {
    &&& ctx.sections.platform.relro_padding_section_id != Some(placement.section_id)
    &&& ctx.input_order.inputs_of(part) is None
    &&& placement.info.location_info is None
    &&& placement.overlay is None
    &&& ctx.sections.alignment_of(part) <= 16
}

/// A part of an allocated section in a loaded segment goes to the next multiple of its alignment
/// after what has been placed there, takes up its size in memory, and the same in the file unless
/// it holds zeros only. In the file it is as far from the start of the segment as in memory, unless
/// the file has got further already. Other parts stay where they are.
pub proof fn lemma_part_follows_in_segment<'a, 'data>(
    s: LayoutView,
    ctx: &LayoutContext<'a, 'data>,
    placement: SectionPlacement<'data>,
    entry: (PartId, u64),
    is_first: bool,
    from: int,
    t: LayoutView,
)
    requires
        is_plain_part(ctx, placement, entry.0),
        ctx.sections.info(placement.target).section_attributes.alloc,
        !ctx.args.should_output_partial_object,
        s.load_segment_depth > 0,
        part_placement::part_step(s, ctx, placement, entry, is_first, from) == Ok::<
            _,
            LayoutError,
        >(t),
    ensures
        t.records.contains_key(entry.0.0),
        ({
            let record = t.records[entry.0.0];
            let zeros = ctx.sections.info(placement.target).section_attributes.no_bits;
            let value = record.alignment.bytes();
            &&& record.alignment.exp() == part_exponent(ctx, placement, entry.0, is_first)
            &&& is_next_multiple(record.mem_offset as int, s.mem_offset as int, value)
            &&& is_next_multiple(record.lma_offset as int, s.lma_offset as int, value)
            &&& record.mem_size == entry.1
            &&& t.mem_offset == record.mem_offset + entry.1
            &&& t.lma_offset == record.lma_offset + entry.1
            &&& t.part_offsets == s.part_offsets.insert(entry.0.0, Some(record.mem_offset))
            &&& zeros ==> record.file_size == 0 && record.file_offset == s.file_offset
                && t.file_offset == s.file_offset
            &&& !zeros ==> {
                &&& record.file_size == entry.1
                &&& t.file_offset == record.file_offset + entry.1
                &&& s.file_offset <= record.file_offset
                &&& s.load_origins.len() > 0 && entry.1 > 0 ==> {
                    let (load_vma, _, load_file) = s.load_origins.last();
                    let along = load_file + (record.mem_offset - load_vma);
                    &&& load_vma <= record.mem_offset && along <= u64::MAX ==> record.file_offset
                        >= along
                    &&& record.file_offset == along || record.file_offset == u64::MAX
                        || is_next_multiple(
                        record.file_offset as int,
                        s.file_offset as int,
                        value,
                    )
                }
                &&& s.load_origins.len() == 0 || entry.1 == 0 ==> is_next_multiple(
                    record.file_offset as int,
                    s.file_offset as int,
                    value,
                )
            }
        }),
        forall|other: u32|
            other != entry.0.0 && s.records.contains_key(other) ==> #[trigger] t.records[other]
                == s.records[other] && t.records.contains_key(other),
        t.load_origins == s.load_origins,
        t.load_segment_depth == s.load_segment_depth,
        t.pending_location == s.pending_location,
        t.tls_memsave == s.tls_memsave,
{
    let alignment = part_placement::alignment_for(ctx, placement, entry.0, is_first);
    Alignment::lemma_exp_of(ctx.sections.alignment_of(entry.0));
    alignment.lemma_bytes_positive(placement.max_alignment);
    Alignment::of_exp(ctx.sections.alignment_of(entry.0)).lemma_bytes_positive(
        placement.max_alignment,
    );
    lemma_up_goes_to_next_multiple(alignment, s.file_offset);
    lemma_up_goes_to_next_multiple(alignment, s.mem_offset);
    lemma_up_goes_to_next_multiple(alignment, s.lma_offset);
}

/// A part of an allocated section outside of the loaded segments takes up space in the file only: it
/// has no address, and moves nothing in memory.
pub proof fn lemma_part_outside_segments<'a, 'data>(
    s: LayoutView,
    ctx: &LayoutContext<'a, 'data>,
    placement: SectionPlacement<'data>,
    entry: (PartId, u64),
    is_first: bool,
    from: int,
    t: LayoutView,
)
    requires
        is_plain_part(ctx, placement, entry.0),
        ctx.sections.info(placement.target).section_attributes.alloc,
        !ctx.args.should_output_partial_object,
        s.load_segment_depth == 0,
        part_placement::part_step(s, ctx, placement, entry, is_first, from) == Ok::<
            _,
            LayoutError,
        >(t),
    ensures
        ({
            let record = t.records[entry.0.0];
            let zeros = ctx.sections.info(placement.target).section_attributes.no_bits;
            &&& record.mem_offset == 0
            &&& record.lma_offset == 0
            &&& record.mem_size == entry.1
            &&& record.file_size == (if zeros {
                0
            } else {
                entry.1
            })
            &&& s.file_offset <= record.file_offset
            &&& t.file_offset == record.file_offset + record.file_size
            &&& t.mem_offset == s.mem_offset
            &&& t.lma_offset == s.lma_offset
            &&& t.pad_file_at_next_load
        }),
{
    let alignment = part_placement::alignment_for(ctx, placement, entry.0, is_first);
    lemma_up_goes_to_next_multiple(alignment, s.file_offset);
}

/// A part of a section that is not allocated is in the file. Its address is an offset in the section,
/// and nothing moves in memory.
pub proof fn lemma_part_not_allocated<'a, 'data>(
    s: LayoutView,
    ctx: &LayoutContext<'a, 'data>,
    placement: SectionPlacement<'data>,
    entry: (PartId, u64),
    is_first: bool,
    from: int,
    t: LayoutView,
)
    requires
        is_plain_part(ctx, placement, entry.0),
        !ctx.sections.info(placement.target).section_attributes.alloc,
        !placement.follow_location_counter,
        placement.section_id.0 < s.nonalloc_mem_offsets.len(),
        part_placement::part_step(s, ctx, placement, entry, is_first, from) == Ok::<
            _,
            LayoutError,
        >(t),
    ensures
        ({
            let record = t.records[entry.0.0];
            let before = s.nonalloc_mem_offsets[placement.section_id.0 as int];
            &&& record.mem_size == entry.1
            &&& record.file_size == entry.1
            &&& is_next_multiple(
                record.mem_offset as int,
                before as int,
                record.alignment.bytes(),
            )
            &&& record.lma_offset == record.mem_offset
            &&& s.file_offset <= record.file_offset
            &&& t.file_offset == record.file_offset + entry.1
            &&& t.nonalloc_mem_offsets[placement.section_id.0 as int] == before + entry.1
            &&& t.mem_offset == s.mem_offset
            &&& t.lma_offset == s.lma_offset
        }),
{
    let alignment = part_placement::alignment_for(ctx, placement, entry.0, is_first);
    lemma_up_goes_to_next_multiple(alignment, s.file_offset);
    lemma_up_goes_to_next_multiple(
        alignment,
        s.nonalloc_mem_offsets[placement.section_id.0 as int],
    );
}

/// In an object file that is linked again, every section has addresses of its own: the parts of a
/// section follow each other, and other sections do not matter.
pub proof fn lemma_part_of_relocatable<'a, 'data>(
    s: LayoutView,
    ctx: &LayoutContext<'a, 'data>,
    placement: SectionPlacement<'data>,
    entry: (PartId, u64),
    is_first: bool,
    from: int,
    t: LayoutView,
)
    requires
        is_plain_part(ctx, placement, entry.0),
        ctx.sections.info(placement.target).section_attributes.alloc,
        ctx.args.should_output_partial_object,
        placement.section_id.0 < s.reloc_alloc_mem_offsets.len(),
        part_placement::part_step(s, ctx, placement, entry, is_first, from) == Ok::<
            _,
            LayoutError,
        >(t),
    ensures
        ({
            let record = t.records[entry.0.0];
            let before = s.reloc_alloc_mem_offsets[placement.section_id.0 as int];
            &&& record.mem_size == entry.1
            &&& is_next_multiple(
                record.mem_offset as int,
                before as int,
                record.alignment.bytes(),
            )
            &&& t.reloc_alloc_mem_offsets == s.reloc_alloc_mem_offsets.update(
                placement.section_id.0 as int,
                (record.mem_offset + entry.1) as u64,
            )
            &&& record.mem_offset + entry.1 <= u64::MAX
            &&& t.file_offset == record.file_offset + record.file_size
            &&& t.mem_offset == s.mem_offset
        }),
{
    let alignment = part_placement::alignment_for(ctx, placement, entry.0, is_first);
    lemma_up_goes_to_next_multiple(alignment, s.file_offset);
    lemma_up_goes_to_next_multiple(
        alignment,
        s.reloc_alloc_mem_offsets[placement.section_id.0 as int],
    );
}

/// A section reaches just over its parts: each of its bounds is one of the section so far or of the
/// part. It is aligned for each part that is not empty.
pub proof fn lemma_section_reaches_over_parts(
    section: OutputRecordLayout,
    part: OutputRecordLayout,
)
    requires
        section.in_range(),
        part.in_range(),
    ensures
        ({
            let whole = crate::record_layout::section_with_part(section, part);
            let mem_end = whole.mem_offset + whole.mem_size;
            let file_end = whole.file_offset + whole.file_size;
            &&& whole.mem_offset <= section.mem_offset && whole.mem_offset <= part.mem_offset
            &&& whole.mem_offset == section.mem_offset || whole.mem_offset == part.mem_offset
            &&& section.mem_offset + section.mem_size <= mem_end && part.mem_offset
                + part.mem_size <= mem_end
            &&& mem_end == section.mem_offset + section.mem_size || mem_end == part.mem_offset
                + part.mem_size
            &&& whole.file_offset <= section.file_offset && whole.file_offset <= part.file_offset
            &&& whole.file_offset == section.file_offset || whole.file_offset == part.file_offset
            &&& section.file_offset + section.file_size <= file_end && part.file_offset
                + part.file_size <= file_end
            &&& file_end == section.file_offset + section.file_size || file_end
                == part.file_offset + part.file_size
            &&& whole.lma_offset <= section.lma_offset && whole.lma_offset <= part.lma_offset
            &&& whole.lma_offset == section.lma_offset || whole.lma_offset == part.lma_offset
            &&& section.alignment.exp() <= whole.alignment.exp()
            &&& part.mem_size > 0 ==> part.alignment.exp() <= whole.alignment.exp()
            &&& whole.alignment == section.alignment || part.mem_size > 0 && whole.alignment
                == part.alignment
        }),
{
}

/// A section with one part is where the part is, and at least aligned as the section asks for.
pub proof fn lemma_section_of_one_part(part: OutputRecordLayout, min_alignment: Alignment)
    ensures
        ({
            let whole = crate::record_layout::first_part_section(part, min_alignment);
            &&& whole.mem_offset == part.mem_offset && whole.mem_size == part.mem_size
            &&& whole.file_offset == part.file_offset && whole.file_size == part.file_size
            &&& whole.lma_offset == part.lma_offset
            &&& min_alignment.exp() <= whole.alignment.exp()
            &&& part.mem_size > 0 ==> part.alignment.exp() <= whole.alignment.exp()
            &&& whole.alignment == min_alignment || part.mem_size > 0 && whole.alignment
                == part.alignment
        }),
{
}

/// Whether a part is inside of its section, in memory and in the file.
pub open spec fn inside(part: OutputRecordLayout, section: OutputRecordLayout) -> bool {
    &&& section.mem_offset <= part.mem_offset
    &&& part.mem_offset + part.mem_size <= section.mem_offset + section.mem_size
    &&& section.file_offset <= part.file_offset
    &&& part.file_offset + part.file_size <= section.file_offset + section.file_size
}

proof fn lemma_part_is_recorded<'a, 'data>(
    s: LayoutView,
    ctx: &LayoutContext<'a, 'data>,
    placement: SectionPlacement<'data>,
    entry: (PartId, u64),
    is_first: bool,
    from: int,
    t: LayoutView,
)
    requires
        placement.section_id.0 < s.section_layouts.len(),
        part_placement::part_step(s, ctx, placement, entry, is_first, from) == Ok::<
            _,
            LayoutError,
        >(t),
    ensures
        t.section_layouts.len() == s.section_layouts.len(),
        t.records.contains_key(entry.0.0),
        forall|other: u32|
            other != entry.0.0 && s.records.contains_key(other) ==> #[trigger] t.records[other]
                == s.records[other] && t.records.contains_key(other),
        inside(t.records[entry.0.0], t.section_layouts[placement.section_id.0 as int]),
        !is_first ==> inside(
            s.section_layouts[placement.section_id.0 as int],
            t.section_layouts[placement.section_id.0 as int],
        ),
{
    let index = placement.section_id.0 as int;
    let alignment = part_placement::alignment_for(ctx, placement, entry.0, is_first);
    let mem_size = part_placement::part_memory(
        s,
        ctx,
        placement,
        alignment,
        entry.0,
        entry.1,
    )->Ok_0;
    let aligned = part_placement::file_alignment_step(s, ctx, placement, alignment)->Ok_0;
    let (placed, record) = part_placement::place(
        aligned,
        ctx,
        placement,
        alignment,
        mem_size,
    )->Ok_0;
    assert(placed.records == s.records && placed.section_layouts == s.section_layouts);
    let recorded = part_placement::record_step(placed, placement, entry.0, record, is_first)->Ok_0;
    assert(recorded.records == s.records.insert(entry.0.0, record));
    assert(recorded.section_layouts.len() == s.section_layouts.len());
    assert(inside(record, recorded.section_layouts[index]));
    assert(!is_first ==> inside(s.section_layouts[index], recorded.section_layouts[index]));
}

/// A section that has been laid out holds all of its parts.
pub proof fn lemma_section_holds_its_parts<'a, 'data>(
    s: LayoutView,
    ctx: &LayoutContext<'a, 'data>,
    placement: SectionPlacement<'data>,
    entries: Seq<(PartId, u64)>,
    count: int,
    from: int,
    t: LayoutView,
)
    requires
        placement.section_id.0 < s.section_layouts.len(),
        0 <= count <= entries.len(),
        forall|i: int, j: int|
            0 <= i < j < entries.len() ==> (#[trigger] entries[i]).0.0 != (
            #[trigger] entries[j]).0.0,
        part_placement::parts_step(s, ctx, placement, entries, count, from) == Ok::<
            _,
            LayoutError,
        >(t),
    ensures
        t.section_layouts.len() == s.section_layouts.len(),
        forall|i: int|
            0 <= i < count ==> t.records.contains_key((#[trigger] entries[i]).0.0) && inside(
                t.records[entries[i].0.0],
                t.section_layouts[placement.section_id.0 as int],
            ),
    decreases count,
{
    if count > 0 {
        let before = part_placement::parts_step(
            s,
            ctx,
            placement,
            entries,
            count - 1,
            from,
        )->Ok_0;
        lemma_section_holds_its_parts(s, ctx, placement, entries, count - 1, from, before);
        let index = placement.section_id.0 as int;
        let entry = entries[count - 1];
        let section = before.section_layouts[index];
        lemma_part_is_recorded(before, ctx, placement, entry, count == 1, from, t);
        assert forall|i: int| 0 <= i < count implies t.records.contains_key(
            (#[trigger] entries[i]).0.0,
        ) && inside(t.records[entries[i].0.0], t.section_layouts[index]) by {
            if i < count - 1 {
                assert(before.records.contains_key(entries[i].0.0));
                assert(entries[i].0.0 != entries[count - 1].0.0);
                assert(t.records[entries[i].0.0] == before.records[entries[i].0.0]);
                assert(inside(before.records[entries[i].0.0], section));
                assert(inside(section, t.section_layouts[index]));
            }
        }
    }
}

/// Where the first part of a section has been placed, the section starts, as long as nothing goes
/// back.
proof fn lemma_section_starts_with_first_part<'a, 'data>(
    s: LayoutView,
    ctx: &LayoutContext<'a, 'data>,
    placement: SectionPlacement<'data>,
    entries: Seq<(PartId, u64)>,
    count: int,
    from: int,
    first: LayoutView,
    t: LayoutView,
)
    requires
        placement.section_id.0 < s.section_layouts.len(),
        1 <= count <= entries.len(),
        forall|i: int| 0 <= i < entries.len() ==> is_plain_part(ctx, placement, (#[trigger] entries[i]).0),
        ctx.sections.info(placement.target).section_attributes.alloc,
        !ctx.args.should_output_partial_object,
        s.load_segment_depth > 0,
        part_placement::parts_step(s, ctx, placement, entries, 1, from) == Ok::<_, LayoutError>(
            first,
        ),
        part_placement::parts_step(s, ctx, placement, entries, count, from) == Ok::<
            _,
            LayoutError,
        >(t),
    ensures
        t.section_layouts.len() == s.section_layouts.len(),
        t.load_segment_depth == s.load_segment_depth,
        ({
            let record = first.records[entries[0].0.0];
            let section = t.section_layouts[placement.section_id.0 as int];
            &&& section.mem_offset == record.mem_offset
            &&& section.file_offset == record.file_offset
            &&& record.mem_offset <= t.mem_offset
            &&& record.file_offset <= t.file_offset
        }),
    decreases count,
{
    let before = part_placement::parts_step(s, ctx, placement, entries, count - 1, from)->Ok_0;
    let entry = entries[count - 1];
    assert(is_plain_part(ctx, placement, entry.0));
    if count == 1 {
        assert(before == s);
        lemma_part_follows_in_segment(s, ctx, placement, entry, true, from, t);
    } else {
        lemma_section_starts_with_first_part(
            s,
            ctx,
            placement,
            entries,
            count - 1,
            from,
            first,
            before,
        );
        lemma_part_follows_in_segment(before, ctx, placement, entry, false, from, t);
    }
}

/// The first section of a loaded segment starts on a page, in memory and in the file. If it is not
/// aligned to more than a page, it starts just where the segment starts.
pub proof fn lemma_first_section_starts_on_page<'a, 'data>(
    s: LayoutView,
    ctx: &LayoutContext<'a, 'data>,
    id: OutputSectionId,
    from: int,
    t: LayoutView,
)
    requires
        ctx.sections.wf(),
        ctx.sections.has(id),
        ctx.args.loadable_segment_alignment.exp() <= 16,
        ctx.sizes.max_exponent(id, ctx.sections) <= 16,
        id.0 < s.section_layouts.len(),
        layout_laws::follows_order(ctx.sections.info(id)),
        !ctx.args.should_output_partial_object,
        ctx.sections.info(ctx.sections.primary(id)).section_attributes.alloc,
        s.pending_location is None,
        s.tls_memsave is None,
        s.load_segment_depth > 0,
        s.load_origins.len() > 0,
        s.load_origins.last() == (s.mem_offset, s.lma_offset, s.file_offset),
        s.mem_offset as int % ctx.args.loadable_segment_alignment.bytes() == 0,
        s.file_offset as int % ctx.args.loadable_segment_alignment.bytes() == 0,
        forall|i: int|
            0 <= i < part_placement::parts_to_place(ctx, id).len() ==> is_plain_part(
                ctx,
                section_start::initial_placement(s, ctx, id),
                (#[trigger] part_placement::parts_to_place(ctx, id)[i]).0,
            ),
        layout_sections::section_step(s, ctx, id, from) == Ok::<_, LayoutError>(t),
    ensures
        ({
            let page = ctx.args.loadable_segment_alignment;
            let section = t.section_layouts[id.0 as int];
            &&& section.mem_offset as int % page.bytes() == 0
            &&& section.file_offset as int % page.bytes() == 0 || section.file_offset == u64::MAX
            &&& is_next_multiple(
                section.mem_offset as int,
                s.mem_offset as int,
                pow2(ctx.sizes.max_exponent(id, ctx.sections)) as int,
            )
            &&& ctx.sizes.max_exponent(id, ctx.sections) <= page.exp() ==> section.mem_offset
                == s.mem_offset && section.file_offset == s.file_offset
        }),
{
    let page = ctx.args.loadable_segment_alignment;
    let exponent = ctx.sizes.max_exponent(id, ctx.sections);
    let (started, placement) = section_start::section_start(s, ctx, id)->Ok_0;
    let entries = part_placement::parts_to_place(ctx, id);
    let placed = part_placement::parts_step(
        started,
        ctx,
        placement,
        entries,
        entries.len() as int,
        from,
    )->Ok_0;
    Alignment::lemma_exp_of(exponent);
    page.lemma_bytes_positive(page);
    assert(entries.len() > 0);
    assert(started.mem_offset == s.mem_offset);
    assert(started.file_offset == s.file_offset);
    assert(started.lma_offset == s.mem_offset);
    assert(started.load_origins == s.load_origins);
    lemma_first_part_exists(started, ctx, placement, entries, entries.len() as int, from);
    let first = part_placement::parts_step(started, ctx, placement, entries, 1, from)->Ok_0;
    assert(placement.max_alignment == Alignment::of_exp(exponent));
    assert forall|i: int| 0 <= i < entries.len() implies is_plain_part(
        ctx,
        placement,
        (#[trigger] entries[i]).0,
    ) by {
        assert(is_plain_part(
            ctx,
            section_start::initial_placement(s, ctx, id),
            part_placement::parts_to_place(ctx, id)[i].0,
        ));
    }
    lemma_section_starts_with_first_part(
        started,
        ctx,
        placement,
        entries,
        entries.len() as int,
        from,
        first,
        placed,
    );
    assert(part_placement::parts_step(started, ctx, placement, entries, 0, from) == Ok::<
        _,
        LayoutError,
    >(started));
    assert(is_plain_part(ctx, placement, entries[0].0));
    lemma_part_follows_in_segment(started, ctx, placement, entries[0], true, from, first);
    let record = first.records[entries[0].0.0];
    let value = record.alignment.bytes();
    assert(record.alignment.exp() == exponent);
    assert(t.section_layouts == placed.section_layouts);
    let section = t.section_layouts[id.0 as int];
    lemma_multiple_of_page(record.mem_offset as int, s.mem_offset as int, exponent, page.exp());
    if exponent <= page.exp() {
        crate::alignment::lemma_lower_power_divides(s.mem_offset as int, exponent, page.exp());
        crate::alignment::lemma_lower_power_divides(s.file_offset as int, exponent, page.exp());
        lemma_up_goes_to_next_multiple(record.alignment, s.file_offset);
        lemma_up_goes_to_next_multiple(record.alignment, s.mem_offset);
    }
    if is_next_multiple(record.file_offset as int, s.file_offset as int, value) {
        lemma_multiple_of_page(
            record.file_offset as int,
            s.file_offset as int,
            exponent,
            page.exp(),
        );
    }
    let along = s.file_offset + (record.mem_offset - s.mem_offset);
    if record.file_offset == along {
        let distance = record.mem_offset - s.mem_offset;
        lemma_congruent_distance(record.mem_offset as int, s.mem_offset as int, page.bytes());
        vstd::arithmetic::div_mod::lemma_mod_adds(
            s.file_offset as int,
            distance,
            page.bytes(),
        );
    }
}

proof fn lemma_multiple_of_page(number: int, offset: int, exponent: nat, page: nat)
    requires
        is_next_multiple(number, offset, pow2(exponent) as int),
        offset % (pow2(page) as int) == 0,
    ensures
        number % (pow2(page) as int) == 0,
        exponent <= page ==> number == offset,
{
    if page <= exponent {
        crate::alignment::lemma_lower_power_divides(number, page, exponent);
    }
    if exponent <= page {
        crate::alignment::lemma_lower_power_divides(offset, exponent, page);
        crate::alignment::lemma_round_up(offset, pow2(exponent) as int);
        let value = pow2(exponent) as int;
        vstd::arithmetic::div_mod::lemma_fundamental_div_mod(number, value);
        vstd::arithmetic::div_mod::lemma_fundamental_div_mod(offset, value);
        let p = number / value;
        let q = offset / value;
        assert(p == q) by (nonlinear_arith)
            requires
                number == value * p,
                offset == value * q,
                offset <= number < offset + value,
                value > 0,
        ;
    }
}

proof fn lemma_first_part_exists<'a, 'data>(
    s: LayoutView,
    ctx: &LayoutContext<'a, 'data>,
    placement: SectionPlacement<'data>,
    entries: Seq<(PartId, u64)>,
    count: int,
    from: int,
)
    requires
        1 <= count,
        part_placement::parts_step(s, ctx, placement, entries, count, from) is Ok,
    ensures
        part_placement::parts_step(s, ctx, placement, entries, 1, from) is Ok,
    decreases count,
{
    if count > 1 {
        lemma_first_part_exists(s, ctx, placement, entries, count - 1, from);
    }
}

} // verus!
