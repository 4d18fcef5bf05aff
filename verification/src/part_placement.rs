//! Where the parts of a section go.
use crate::alignment::Alignment;
use crate::layout_state;
use crate::layout_state::{LayoutContext, LayoutError, LayoutState, LayoutView};
use crate::output_section_id::{OutputSectionId, PartId};
use crate::output_sections::OverlayPlacement;
use crate::record_layout::{layout_section_from_part_layouts, OutputRecordLayout};
use crate::section_start::{is_overlay_leader, SectionPlacement};
use vstd::prelude::*;

verus! {

/// The alignment that a part gets. The first part is aligned for the whole section.
pub open spec fn alignment_for<'a, 'data>(
    ctx: &LayoutContext<'a, 'data>,
    placement: SectionPlacement<'data>,
    part: PartId,
    is_first: bool,
) -> Alignment {
    if is_first {
        placement.max_alignment
    } else {
        Alignment::of_exp(ctx.sections.alignment_of(part)).spec_min(placement.max_alignment)
    }
}

/// Whether the contents of a section are in the file.
pub open spec fn in_file<'a, 'data>(
    ctx: &LayoutContext<'a, 'data>,
    placement: SectionPlacement<'data>,
) -> bool {
    !ctx.sections.info(placement.target).section_attributes.no_bits
}

/// The size of a part in memory. Padding reaches to the end of the page, and inputs that are
/// placed in the order of the command line take up the gaps between them too.
pub open spec fn part_memory<'a, 'data>(
    s: LayoutView,
    ctx: &LayoutContext<'a, 'data>,
    placement: SectionPlacement<'data>,
    alignment: Alignment,
    part: PartId,
    size: u64,
) -> Result<u64, LayoutError<'data>> {
    match layout_state::up(alignment, s.mem_offset) {
        None => Err(LayoutError::Overflow),
        Some(aligned) => if ctx.sections.platform.relro_padding_section_id == Some(
            placement.section_id,
        ) {
            match layout_state::up(ctx.args.loadable_segment_alignment, s.mem_offset) {
                None => Err(LayoutError::Overflow),
                Some(end) => Ok((end - s.mem_offset) as u64),
            }
        } else {
            match ctx.input_order.inputs_of(part) {
                None => Ok(size),
                Some(inputs) => match crate::input_order::packed_end(aligned, inputs) {
                    None => Err(LayoutError::Overflow),
                    Some(end) => Ok((end - aligned) as u64),
                },
            }
        },
    }
}

/// Aligns the file offset if the section is in the file.
pub open spec fn file_alignment_step<'a, 'data>(
    s: LayoutView,
    ctx: &LayoutContext<'a, 'data>,
    placement: SectionPlacement<'data>,
    alignment: Alignment,
) -> Result<LayoutView, LayoutError<'data>> {
    if !in_file(ctx, placement) {
        Ok(s)
    } else {
        match layout_state::up(alignment, s.file_offset) {
            None => Err(LayoutError::Overflow),
            Some(file_offset) => Ok(LayoutView { file_offset, ..s }),
        }
    }
}

/// Places a part in an object file that is linked again. Each section has addresses of its own.
pub open spec fn place_relocatable<'data>(
    s: LayoutView,
    placement: SectionPlacement<'data>,
    alignment: Alignment,
    mem_size: u64,
    file_size: u64,
) -> Result<(LayoutView, OutputRecordLayout), LayoutError<'data>> {
    let index = placement.section_id.0 as int;
    match layout_state::up(alignment, s.reloc_alloc_mem_offsets[index]) {
        None => Err(LayoutError::Overflow),
        Some(mem_offset) => match (layout_state::plus(mem_offset, mem_size), layout_state::plus(s.file_offset, file_size)) {
            (Some(end), Some(file_offset)) => Ok(
                (
                    LayoutView {
                        file_offset,
                        reloc_alloc_mem_offsets: s.reloc_alloc_mem_offsets.update(index, end),
                        ..s
                    },
                    OutputRecordLayout {
                        file_size,
                        mem_size,
                        alignment,
                        file_offset: s.file_offset,
                        mem_offset,
                        lma_offset: mem_offset,
                    },
                ),
            ),
            _ => Err(LayoutError::Overflow),
        },
    }
}

/// Places a part that is allocated but in no loaded segment. It takes up space in the file only.
pub open spec fn place_in_file<'data>(
    s: LayoutView,
    alignment: Alignment,
    mem_size: u64,
    file_size: u64,
) -> Result<(LayoutView, OutputRecordLayout), LayoutError<'data>> {
    match layout_state::plus(s.file_offset, file_size) {
        None => Err(LayoutError::Overflow),
        Some(file_offset) => Ok(
            (
                LayoutView { file_offset, pad_file_at_next_load: true, ..s },
                OutputRecordLayout {
                    file_size,
                    mem_size,
                    alignment,
                    file_offset: s.file_offset,
                    mem_offset: 0,
                    lma_offset: 0,
                },
            ),
        ),
    }
}

/// The file offset of a part in a loaded segment: the offset from the start of the segment is the
/// same in the file as in memory, but the file offset never goes back.
pub open spec fn file_offset_in_segment(
    file_offset: u64,
    mem_offset: u64,
    lma_offset: u64,
    load_origins: Seq<(u64, u64, u64)>,
    overlay: Option<OverlayPlacement>,
) -> u64 {
    if load_origins.len() == 0 {
        file_offset
    } else {
        let (load_vma, load_lma, load_file) = load_origins.last();
        let delta = if crate::section_start::leads_overlay(overlay) {
            mem_offset - load_vma
        } else {
            lma_offset - load_lma
        };
        if delta >= 0 && load_file + delta > file_offset {
            if load_file + delta > u64::MAX {
                u64::MAX
            } else {
                (load_file + delta) as u64
            }
        } else {
            file_offset
        }
    }
}

/// Places a part in a loaded segment, after what has been placed there so far.
pub open spec fn place_in_segment<'data>(
    s: LayoutView,
    placement: SectionPlacement<'data>,
    alignment: Alignment,
    mem_size: u64,
    file_size: u64,
) -> Result<(LayoutView, OutputRecordLayout), LayoutError<'data>> {
    match (layout_state::up(alignment, s.mem_offset), layout_state::up(alignment, s.lma_offset)) {
        (Some(mem_offset), Some(lma_offset)) => {
            let file_offset = if file_size > 0 {
                file_offset_in_segment(
                    s.file_offset,
                    mem_offset,
                    lma_offset,
                    s.load_origins,
                    placement.overlay,
                )
            } else {
                s.file_offset
            };
            match (
                layout_state::plus(file_offset, file_size),
                layout_state::plus(mem_offset, mem_size),
                layout_state::plus(lma_offset, mem_size),
            ) {
                (Some(file_end), Some(mem_end), Some(lma_end)) => Ok(
                    (
                        LayoutView {
                            file_offset: file_end,
                            mem_offset: mem_end,
                            lma_offset: lma_end,
                            ..s
                        },
                        OutputRecordLayout {
                            file_size,
                            mem_size,
                            alignment,
                            file_offset,
                            mem_offset,
                            lma_offset,
                        },
                    ),
                ),
                _ => Err(LayoutError::Overflow),
            }
        },
        _ => Err(LayoutError::Overflow),
    }
}

/// Places a part that is not allocated. It is in the file, and its addresses are offsets in the
/// section.
pub open spec fn place_unallocated<'data>(
    s: LayoutView,
    placement: SectionPlacement<'data>,
    alignment: Alignment,
    mem_size: u64,
) -> Result<(LayoutView, OutputRecordLayout), LayoutError<'data>> {
    let index = placement.section_id.0 as int;
    match (
        layout_state::up(alignment, s.nonalloc_mem_offsets[index]),
        layout_state::plus(s.nonalloc_mem_offsets[index], mem_size),
        layout_state::plus(s.file_offset, mem_size),
    ) {
        (Some(mem_offset), Some(end), Some(file_offset)) => Ok(
            (
                LayoutView {
                    file_offset,
                    nonalloc_mem_offsets: s.nonalloc_mem_offsets.update(index, end),
                    ..s
                },
                OutputRecordLayout {
                    file_size: mem_size,
                    mem_size,
                    alignment,
                    file_offset: s.file_offset,
                    mem_offset,
                    lma_offset: mem_offset,
                },
            ),
        ),
        _ => Err(LayoutError::Overflow),
    }
}

/// Places a part of the given size.
pub open spec fn place<'a, 'data>(
    s: LayoutView,
    ctx: &LayoutContext<'a, 'data>,
    placement: SectionPlacement<'data>,
    alignment: Alignment,
    mem_size: u64,
) -> Result<(LayoutView, OutputRecordLayout), LayoutError<'data>> {
    let alloc = ctx.sections.info(placement.target).section_attributes.alloc;
    let file_size = if in_file(ctx, placement) {
        mem_size
    } else {
        0
    };
    if alloc && ctx.args.should_output_partial_object {
        place_relocatable(s, placement, alignment, mem_size, file_size)
    } else if alloc && s.load_segment_depth == 0 {
        place_in_file(s, alignment, mem_size, file_size)
    } else if alloc || placement.follow_location_counter {
        place_in_segment(s, placement, alignment, mem_size, file_size)
    } else {
        place_unallocated(s, placement, alignment, mem_size)
    }
}

/// Records where a part has been placed and extends the section by it.
pub open spec fn record_step<'data>(
    s: LayoutView,
    placement: SectionPlacement<'data>,
    part: PartId,
    record: OutputRecordLayout,
    is_first: bool,
) -> Result<LayoutView, LayoutError<'data>> {
    let index = placement.section_id.0 as int;
    let section = s.section_layouts[index];
    if !is_first && !(record.in_range() && section.in_range()) {
        Err(LayoutError::Overflow)
    } else {
        Ok(
            LayoutView {
                part_offsets: s.part_offsets.insert(part.0, Some(record.mem_offset)),
                records: s.records.insert(part.0, record),
                section_layouts: s.section_layouts.update(
                    index,
                    if is_first {
                        crate::record_layout::first_part_section(
                            record,
                            placement.info.min_alignment,
                        )
                    } else {
                        crate::record_layout::section_with_part(section, record)
                    },
                ),
                ..s
            },
        )
    }
}

/// Gives a part and its section the load address that the linker script asks for.
pub open spec fn load_address_override<'a, 'data>(
    s: LayoutView,
    ctx: &LayoutContext<'a, 'data>,
    placement: SectionPlacement<'data>,
    part: PartId,
    from: int,
) -> Result<LayoutView, LayoutError<'data>> {
    match placement.info.location_info {
        Some(location) if location.at_location is Some && crate::section_start::leads_overlay(
            placement.overlay,
        ) => match LayoutState::evaluated(s, ctx, location.at_location->0, None, from) {
            Err(error) => Err(error),
            Ok(lma_offset) => {
                let index = placement.section_id.0 as int;
                Ok(
                    LayoutView {
                        lma_offset,
                        records: s.records.insert(
                            part.0,
                            OutputRecordLayout { lma_offset, ..s.records[part.0] },
                        ),
                        section_layouts: s.section_layouts.update(
                            index,
                            OutputRecordLayout { lma_offset, ..s.section_layouts[index] },
                        ),
                        ..s
                    },
                )
            },
        },
        _ => Ok(s),
    }
}

/// Lays out one part of a section.
pub open spec fn part_step<'a, 'data>(
    s: LayoutView,
    ctx: &LayoutContext<'a, 'data>,
    placement: SectionPlacement<'data>,
    entry: (PartId, u64),
    is_first: bool,
    from: int,
) -> Result<LayoutView, LayoutError<'data>> {
    let alignment = alignment_for(ctx, placement, entry.0, is_first);
    match part_memory(s, ctx, placement, alignment, entry.0, entry.1) {
        Err(error) => Err(error),
        Ok(mem_size) => match file_alignment_step(s, ctx, placement, alignment) {
            Err(error) => Err(error),
            Ok(aligned) => match place(aligned, ctx, placement, alignment, mem_size) {
                Err(error) => Err(error),
                Ok((placed, record)) => match record_step(
                    placed,
                    placement,
                    entry.0,
                    record,
                    is_first,
                ) {
                    Err(error) => Err(error),
                    Ok(recorded) => load_address_override(recorded, ctx, placement, entry.0, from),
                },
            },
        },
    }
}

/// Lays out the first `count` parts of a section.
pub open spec fn parts_step<'a, 'data>(
    s: LayoutView,
    ctx: &LayoutContext<'a, 'data>,
    placement: SectionPlacement<'data>,
    entries: Seq<(PartId, u64)>,
    count: int,
    from: int,
) -> Result<LayoutView, LayoutError<'data>>
    decreases count,
{
    if count <= 0 {
        Ok(s)
    } else {
        match parts_step(s, ctx, placement, entries, count - 1, from) {
            Err(error) => Err(error),
            Ok(before) => part_step(
                before,
                ctx,
                placement,
                entries[count - 1],
                count == 1,
                from,
            ),
        }
    }
}

/// The parts of a section that are laid out: those that have a size recorded, or the first part,
/// with no size, if there is none.
pub open spec fn parts_to_place<'a, 'data>(
    ctx: &LayoutContext<'a, 'data>,
    id: OutputSectionId,
) -> Seq<(PartId, u64)> {
    let entries = ctx.sizes.entries_in(ctx.sections.parts_of(id));
    if entries.len() == 0 {
        seq![(ctx.sections.parts_of(id).start, 0u64)]
    } else {
        entries
    }
}

proof fn lemma_parts_step_error<'a, 'data>(
    s: LayoutView,
    ctx: &LayoutContext<'a, 'data>,
    placement: SectionPlacement<'data>,
    entries: Seq<(PartId, u64)>,
    count: int,
    total: int,
    from: int,
)
    requires
        0 <= count <= total,
        parts_step(s, ctx, placement, entries, count, from) is Err,
    ensures
        parts_step(s, ctx, placement, entries, total, from) == parts_step(
            s,
            ctx,
            placement,
            entries,
            count,
            from,
        ),
    decreases total - count,
{
    if count < total {
        lemma_parts_step_error(s, ctx, placement, entries, count + 1, total, from);
    }
}

impl LayoutState {
    /// Whether everything but the offsets is the same.
    pub open spec fn same_collections(&self, other: &LayoutState) -> bool {
        &&& self.resolved_lc == other.resolved_lc
        &&& self.regions == other.regions
        &&& self.part_offsets == other.part_offsets
        &&& self.records == other.records
        &&& self.section_layouts == other.section_layouts
        &&& self.nonalloc_mem_offsets@.len() == other.nonalloc_mem_offsets@.len()
        &&& self.reloc_alloc_mem_offsets@.len() == other.reloc_alloc_mem_offsets@.len()
        &&& self.segment_alignments == other.segment_alignments
        &&& self.input_alignments == other.input_alignments
    }

    fn part_mem_size<'a, 'data>(
        &self,
        ctx: &LayoutContext<'a, 'data>,
        placement: &SectionPlacement<'data>,
        alignment: Alignment,
        part_id: PartId,
        size: u64,
    ) -> (mem_size: Result<u64, LayoutError<'data>>)
        requires
            ctx.wf(),
        ensures
            mem_size == part_memory(self.view(), ctx, *placement, alignment, part_id, size),
    {
        let aligned: u64 = match alignment.checked_align_up(self.mem_offset) {
            Some(aligned) => aligned,
            None => {
                return Err(LayoutError::Overflow);
            },
        };
        match ctx.sections.platform.relro_padding_section_id {
            Some(padding) => {
                if padding.0 == placement.section_id.0 {
                    let page: Alignment = ctx.args.loadable_segment_alignment;
                    let end: Option<u64> = page.checked_align_up(self.mem_offset);
                    proof {
                        crate::alignment::lemma_round_up(self.mem_offset as int, page.bytes());
                    }
                    return match end {
                        Some(end) => Ok(end - self.mem_offset),
                        None => Err(LayoutError::Overflow),
                    };
                }
            },
            None => {},
        }
        match ctx.input_order.span_of(part_id, aligned) {
            None => Ok(size),
            Some(None) => Err(LayoutError::Overflow),
            Some(Some(span)) => Ok(span),
        }
    }

    fn align_file<'a, 'data>(
        &mut self,
        ctx: &LayoutContext<'a, 'data>,
        placement: &SectionPlacement<'data>,
        alignment: Alignment,
    ) -> (result: Result<(), LayoutError<'data>>)
        requires
            ctx.sections.has(placement.target),
        ensures
            match result {
                Ok(_) => file_alignment_step(old(self).view(), ctx, *placement, alignment) == Ok::<
                    _,
                    LayoutError,
                >(final(self).view()) && final(self).same_collections(old(self)),
                Err(error) => file_alignment_step(old(self).view(), ctx, *placement, alignment)
                    == Err::<LayoutView, _>(error),
            },
    {
        if ctx.sections.has_data_in_file(placement.target) {
            match alignment.checked_align_up(self.file_offset) {
                Some(file_offset) => {
                    self.file_offset = file_offset;
                },
                None => {
                    return Err(LayoutError::Overflow);
                },
            }
        }
        Ok(())
    }

    fn do_place_relocatable<'data>(
        &mut self,
        placement: &SectionPlacement<'data>,
        alignment: Alignment,
        mem_size: u64,
        file_size: u64,
    ) -> (record: Result<OutputRecordLayout, LayoutError<'data>>)
        requires
            placement.section_id.0 < old(self).reloc_alloc_mem_offsets@.len(),
        ensures
            match record {
                Ok(record) => place_relocatable(
                    old(self).view(),
                    *placement,
                    alignment,
                    mem_size,
                    file_size,
                ) == Ok::<_, LayoutError>((final(self).view(), record)) && final(self).same_collections(old(self)),
                Err(error) => place_relocatable(
                    old(self).view(),
                    *placement,
                    alignment,
                    mem_size,
                    file_size,
                ) == Err::<(LayoutView, OutputRecordLayout), _>(error),
            },
    {
        let id: OutputSectionId = placement.section_id;
        let mem_offset: u64 = match alignment.checked_align_up(
            *self.reloc_alloc_mem_offsets.get(id),
        ) {
            Some(offset) => offset,
            None => {
                return Err(LayoutError::Overflow);
            },
        };
        let end: u64 = match mem_offset.checked_add(mem_size) {
            Some(end) => end,
            None => {
                return Err(LayoutError::Overflow);
            },
        };
        let file_offset: u64 = self.file_offset;
        match file_offset.checked_add(file_size) {
            Some(offset) => {
                self.file_offset = offset;
            },
            None => {
                return Err(LayoutError::Overflow);
            },
        }
        self.reloc_alloc_mem_offsets.set(id, end);
        Ok(
            OutputRecordLayout {
                file_size,
                mem_size,
                alignment,
                file_offset,
                mem_offset,
                lma_offset: mem_offset,
            },
        )
    }

    fn do_place_in_file<'data>(&mut self, alignment: Alignment, mem_size: u64, file_size: u64) -> (
    record: Result<OutputRecordLayout, LayoutError<'data>>)
        ensures
            match record {
                Ok(record) => place_in_file(old(self).view(), alignment, mem_size, file_size)
                    == Ok::<_, LayoutError>((final(self).view(), record)) && final(self).same_collections(old(self)),
                Err(error) => place_in_file(old(self).view(), alignment, mem_size, file_size)
                    == Err::<(LayoutView, OutputRecordLayout), _>(error),
            },
    {
        let file_offset: u64 = self.file_offset;
        match file_offset.checked_add(file_size) {
            Some(offset) => {
                self.file_offset = offset;
            },
            None => {
                return Err(LayoutError::Overflow);
            },
        }
        self.pad_file_at_next_load = true;
        Ok(
            OutputRecordLayout {
                file_size,
                mem_size,
                alignment,
                file_offset,
                mem_offset: 0,
                lma_offset: 0,
            },
        )
    }

    fn segment_file_offset(
        &self,
        mem_offset: u64,
        lma_offset: u64,
        overlay: Option<OverlayPlacement>,
    ) -> (file_offset: u64)
        ensures
            file_offset == file_offset_in_segment(
                self.file_offset,
                mem_offset,
                lma_offset,
                self.load_origins@,
                overlay,
            ),
    {
        if self.load_origins.len() == 0 {
            return self.file_offset;
        }
        let (load_vma, load_lma, load_file) = self.load_origins[self.load_origins.len() - 1];
        let delta: Option<u64> = if is_overlay_leader(overlay) {
            mem_offset.checked_sub(load_vma)
        } else {
            lma_offset.checked_sub(load_lma)
        };
        match delta {
            Some(delta) => {
                let candidate: u64 = load_file.saturating_add(delta);
                if candidate > self.file_offset {
                    candidate
                } else {
                    self.file_offset
                }
            },
            None => self.file_offset,
        }
    }

    fn do_place_in_segment<'data>(
        &mut self,
        placement: &SectionPlacement<'data>,
        alignment: Alignment,
        mem_size: u64,
        file_size: u64,
    ) -> (record: Result<OutputRecordLayout, LayoutError<'data>>)
        ensures
            match record {
                Ok(record) => place_in_segment(
                    old(self).view(),
                    *placement,
                    alignment,
                    mem_size,
                    file_size,
                ) == Ok::<_, LayoutError>((final(self).view(), record)) && final(self).same_collections(old(self)),
                Err(error) => place_in_segment(
                    old(self).view(),
                    *placement,
                    alignment,
                    mem_size,
                    file_size,
                ) == Err::<(LayoutView, OutputRecordLayout), _>(error),
            },
    {
        let mem_offset: u64 = match alignment.checked_align_up(self.mem_offset) {
            Some(offset) => offset,
            None => {
                return Err(LayoutError::Overflow);
            },
        };
        let lma_offset: u64 = match alignment.checked_align_up(self.lma_offset) {
            Some(offset) => offset,
            None => {
                return Err(LayoutError::Overflow);
            },
        };
        let file_offset: u64 = if file_size > 0 {
            self.segment_file_offset(mem_offset, lma_offset, placement.overlay)
        } else {
            self.file_offset
        };
        let file_end: u64 = match file_offset.checked_add(file_size) {
            Some(end) => end,
            None => {
                return Err(LayoutError::Overflow);
            },
        };
        let mem_end: u64 = match mem_offset.checked_add(mem_size) {
            Some(end) => end,
            None => {
                return Err(LayoutError::Overflow);
            },
        };
        let lma_end: u64 = match lma_offset.checked_add(mem_size) {
            Some(end) => end,
            None => {
                return Err(LayoutError::Overflow);
            },
        };
        self.file_offset = file_end;
        self.mem_offset = mem_end;
        self.lma_offset = lma_end;
        Ok(
            OutputRecordLayout {
                file_size,
                mem_size,
                alignment,
                file_offset,
                mem_offset,
                lma_offset,
            },
        )
    }

    fn do_place_unallocated<'data>(
        &mut self,
        placement: &SectionPlacement<'data>,
        alignment: Alignment,
        mem_size: u64,
    ) -> (record: Result<OutputRecordLayout, LayoutError<'data>>)
        requires
            placement.section_id.0 < old(self).nonalloc_mem_offsets@.len(),
        ensures
            match record {
                Ok(record) => place_unallocated(
                    old(self).view(),
                    *placement,
                    alignment,
                    mem_size,
                ) == Ok::<_, LayoutError>((final(self).view(), record)) && final(self).same_collections(old(self)),
                Err(error) => place_unallocated(
                    old(self).view(),
                    *placement,
                    alignment,
                    mem_size,
                ) == Err::<(LayoutView, OutputRecordLayout), _>(error),
            },
    {
        let id: OutputSectionId = placement.section_id;
        let offset: u64 = *self.nonalloc_mem_offsets.get(id);
        let mem_offset: u64 = match alignment.checked_align_up(offset) {
            Some(offset) => offset,
            None => {
                return Err(LayoutError::Overflow);
            },
        };
        let end: u64 = match offset.checked_add(mem_size) {
            Some(end) => end,
            None => {
                return Err(LayoutError::Overflow);
            },
        };
        let file_offset: u64 = self.file_offset;
        match file_offset.checked_add(mem_size) {
            Some(offset) => {
                self.file_offset = offset;
            },
            None => {
                return Err(LayoutError::Overflow);
            },
        }
        self.nonalloc_mem_offsets.set(id, end);
        Ok(
            OutputRecordLayout {
                file_size: mem_size,
                mem_size,
                alignment,
                file_offset,
                mem_offset,
                lma_offset: mem_offset,
            },
        )
    }

    fn do_place<'a, 'data>(
        &mut self,
        ctx: &LayoutContext<'a, 'data>,
        placement: &SectionPlacement<'data>,
        alignment: Alignment,
        mem_size: u64,
    ) -> (record: Result<OutputRecordLayout, LayoutError<'data>>)
        requires
            ctx.wf(),
            old(self).wf(ctx),
            ctx.sections.has(placement.section_id),
            ctx.sections.has(placement.target),
        ensures
            match record {
                Ok(record) => place(old(self).view(), ctx, *placement, alignment, mem_size) == Ok::<
                    _,
                    LayoutError,
                >((final(self).view(), record)) && final(self).same_collections(old(self)),
                Err(error) => place(old(self).view(), ctx, *placement, alignment, mem_size)
                    == Err::<(LayoutView, OutputRecordLayout), _>(error),
            },
    {
        let alloc: bool = ctx.sections.section_flags(placement.target).alloc;
        let file_size: u64 = if ctx.sections.has_data_in_file(placement.target) {
            mem_size
        } else {
            0
        };
        if alloc && ctx.args.should_output_partial_object {
            self.do_place_relocatable(placement, alignment, mem_size, file_size)
        } else if alloc && self.load_segment_depth == 0 {
            self.do_place_in_file(alignment, mem_size, file_size)
        } else if alloc || placement.follow_location_counter {
            self.do_place_in_segment(placement, alignment, mem_size, file_size)
        } else {
            self.do_place_unallocated(placement, alignment, mem_size)
        }
    }

    fn record_part<'a, 'data>(
        &mut self,
        ctx: &LayoutContext<'a, 'data>,
        placement: &SectionPlacement<'data>,
        part_id: PartId,
        record: OutputRecordLayout,
        is_first: bool,
    ) -> (result: Result<(), LayoutError<'data>>)
        requires
            old(self).wf(ctx),
            ctx.sections.has(placement.section_id),
        ensures
            match result {
                Ok(_) => record_step(old(self).view(), *placement, part_id, record, is_first)
                    == Ok::<_, LayoutError>(final(self).view()) && final(self).wf(ctx),
                Err(error) => record_step(old(self).view(), *placement, part_id, record, is_first)
                    == Err::<LayoutView, _>(error),
            },
    {
        let mut section: OutputRecordLayout = *self.section_layouts.get(placement.section_id);
        if !is_first {
            if record.file_offset.checked_add(record.file_size).is_none()
                || record.mem_offset.checked_add(record.mem_size).is_none()
                || section.file_offset.checked_add(section.file_size).is_none()
                || section.mem_offset.checked_add(section.mem_size).is_none() {
                return Err(LayoutError::Overflow);
            }
        }
        self.part_offsets.set(part_id, Some(record.mem_offset));
        layout_section_from_part_layouts(
            &record,
            &mut section,
            placement.info.min_alignment,
            is_first,
        );
        self.section_layouts.set(placement.section_id, section);
        self.records.set(part_id, record);
        Ok(())
    }

    fn override_load_address<'a, 'data>(
        &mut self,
        ctx: &LayoutContext<'a, 'data>,
        placement: &SectionPlacement<'data>,
        part_id: PartId,
        from: usize,
    ) -> (result: Result<(), LayoutError<'data>>)
        requires
            ctx.wf(),
            old(self).wf(ctx),
            ctx.sections.has(placement.section_id),
            from <= ctx.order.events@.len(),
            old(self).records@.contains_key(part_id.0),
        ensures
            match result {
                Ok(_) => load_address_override(
                    old(self).view(),
                    ctx,
                    *placement,
                    part_id,
                    from as int,
                ) == Ok::<_, LayoutError>(final(self).view()) && final(self).wf(ctx),
                Err(error) => load_address_override(
                    old(self).view(),
                    ctx,
                    *placement,
                    part_id,
                    from as int,
                ) == Err::<LayoutView, _>(error),
            },
    {
        match placement.info.location_info {
            Some(location) => match location.at_location {
                Some(expression) => {
                    if is_overlay_leader(placement.overlay) {
                        match self.evaluate(ctx, &expression, None, from) {
                            Err(error) => {
                                return Err(error);
                            },
                            Ok(lma_offset) => {
                                self.lma_offset = lma_offset;
                                let mut record: OutputRecordLayout = self.records.get(part_id);
                                record.lma_offset = lma_offset;
                                self.records.set(part_id, record);
                                let mut section: OutputRecordLayout = *self.section_layouts.get(
                                    placement.section_id,
                                );
                                section.lma_offset = lma_offset;
                                self.section_layouts.set(placement.section_id, section);
                            },
                        }
                    }
                },
                None => {},
            },
            None => {},
        }
        Ok(())
    }

    fn place_part<'a, 'data>(
        &mut self,
        ctx: &LayoutContext<'a, 'data>,
        placement: &SectionPlacement<'data>,
        entry: (PartId, u64),
        is_first: bool,
        from: usize,
    ) -> (result: Result<(), LayoutError<'data>>)
        requires
            ctx.wf(),
            old(self).wf(ctx),
            ctx.sections.has(placement.section_id),
            ctx.sections.has(placement.target),
            from <= ctx.order.events@.len(),
        ensures
            match result {
                Ok(_) => part_step(
                    old(self).view(),
                    ctx,
                    *placement,
                    entry,
                    is_first,
                    from as int,
                ) == Ok::<_, LayoutError>(final(self).view()) && final(self).wf(ctx),
                Err(error) => part_step(
                    old(self).view(),
                    ctx,
                    *placement,
                    entry,
                    is_first,
                    from as int,
                ) == Err::<LayoutView, _>(error),
            },
    {
        let (part_id, size) = entry;
        let alignment: Alignment = if is_first {
            placement.max_alignment
        } else {
            let own: Alignment = ctx.sections.part_alignment(part_id);
            proof {
                own.lemma_of_exp();
            }
            own.min(placement.max_alignment)
        };
        assert(alignment == alignment_for(ctx, *placement, part_id, is_first));
        let mem_size: u64 = match self.part_mem_size(ctx, placement, alignment, part_id, size) {
            Ok(mem_size) => mem_size,
            Err(error) => {
                return Err(error);
            },
        };
        match self.align_file(ctx, placement, alignment) {
            Ok(_) => {},
            Err(error) => {
                return Err(error);
            },
        }
        let record: OutputRecordLayout = match self.do_place(ctx, placement, alignment, mem_size) {
            Ok(record) => record,
            Err(error) => {
                return Err(error);
            },
        };
        match self.record_part(ctx, placement, part_id, record, is_first) {
            Ok(_) => {},
            Err(error) => {
                return Err(error);
            },
        }
        self.override_load_address(ctx, placement, part_id, from)
    }

    /// Lays out the parts of a section.
    pub fn place_parts<'a, 'data>(
        &mut self,
        ctx: &LayoutContext<'a, 'data>,
        placement: &SectionPlacement<'data>,
        from: usize,
    ) -> (result: Result<(), LayoutError<'data>>)
        requires
            ctx.wf(),
            old(self).wf(ctx),
            ctx.sections.has(placement.section_id),
            ctx.sections.has(placement.target),
            from <= ctx.order.events@.len(),
        ensures
            ({
                let entries = parts_to_place(ctx, placement.section_id);
                let expected = parts_step(
                    old(self).view(),
                    ctx,
                    *placement,
                    entries,
                    entries.len() as int,
                    from as int,
                );
                match result {
                    Ok(_) => expected == Ok::<_, LayoutError>(final(self).view()) && final(self).wf(
                        ctx,
                    ),
                    Err(error) => expected == Err::<LayoutView, _>(error),
                }
            }),
    {
        proof {
            ctx.sections.lemma_one_kind(ctx.sizes, placement.section_id);
        }
        let range = ctx.sections.part_range(placement.section_id);
        let mut entries: Vec<(PartId, u64)> = ctx.sizes.in_range(range);
        if entries.len() == 0 {
            entries.push((range.start, 0));
        }
        assert(entries@ =~= parts_to_place(ctx, placement.section_id));
        let ghost start = self.view();
        let mut i: usize = 0;
        while i < entries.len()
            invariant
                i <= entries@.len(),
                ctx.wf(),
                self.wf(ctx),
                ctx.sections.has(placement.section_id),
                ctx.sections.has(placement.target),
                from <= ctx.order.events@.len(),
                start == old(self).view(),
                entries@ == parts_to_place(ctx, placement.section_id),
                parts_step(start, ctx, *placement, entries@, i as int, from as int) == Ok::<
                    _,
                    LayoutError,
                >(self.view()),
            decreases entries@.len() - i,
        {
            match self.place_part(ctx, placement, entries[i], i == 0, from) {
                Ok(_) => {},
                Err(error) => {
                    proof {
                        lemma_parts_step_error(
                            start,
                            ctx,
                            *placement,
                            entries@,
                            i + 1,
                            entries@.len() as int,
                            from as int,
                        );
                    }
                    return Err(error);
                },
            }
            i = i + 1;
        }
        Ok(())
    }
}

} // verus!
