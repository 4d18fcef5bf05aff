//! The layout of all sections.
use crate::alignment::Alignment;
use crate::expression::{Expression, SymbolLoc};
use crate::layout_state;
use crate::layout_state::{
    LayoutContext, LayoutError, LayoutState, LayoutView, ResolvedLocationCounter,
};
use crate::memory_regions::MemoryRegion;
use crate::output_order::OrderEvent;
use crate::output_section_id::OutputSectionId;
use crate::output_sections::OverlayPlacement;
use crate::part_placement;
use crate::program_segments::ProgramSegmentId;
use crate::section_start;
use crate::section_start::SectionPlacement;
use vstd::prelude::*;

verus! {

/// Records how much of its region a section has used up.
pub open spec fn leave_region<'data>(s: LayoutView, name: Option<&'data [u8]>) -> Result<
    LayoutView,
    LayoutError<'data>,
> {
    match name {
        Some(name) if s.regions.contains_key(name@) => {
            let region = s.regions[name@];
            if region.origin + region.length > u64::MAX {
                Err(LayoutError::Overflow)
            } else if s.mem_offset > region.origin + region.length {
                Err(
                    LayoutError::RegionOverflowed {
                        region: name,
                        bytes: (s.mem_offset - (region.origin + region.length)) as u64,
                    },
                )
            } else if s.mem_offset < region.origin {
                Err(LayoutError::Overflow)
            } else {
                Ok(
                    LayoutView {
                        regions: s.regions.insert(
                            name@,
                            MemoryRegion {
                                used: (s.mem_offset - region.origin) as u64,
                                ..region
                            },
                        ),
                        ..s
                    },
                )
            }
        },
        _ => Ok(s),
    }
}

/// Records how much of the region of its load address a section has used up.
pub open spec fn leave_load_region(s: LayoutView, name: Option<&[u8]>) -> LayoutView {
    match name {
        Some(name) if s.regions.contains_key(name@) => {
            let region = s.regions[name@];
            LayoutView {
                regions: s.regions.insert(
                    name@,
                    MemoryRegion {
                        used_lma: if s.lma_offset >= region.origin {
                            (s.lma_offset - region.origin) as u64
                        } else {
                            0
                        },
                        ..region
                    },
                ),
                ..s
            }
        },
        _ => s,
    }
}

/// Goes back to the address of the overlay, or behind its largest member after the last one.
pub open spec fn leave_overlay<'data>(
    s: LayoutView,
    overlay: Option<OverlayPlacement>,
    size: u64,
) -> Result<LayoutView, LayoutError<'data>> {
    match overlay {
        None => Ok(s),
        Some(placement) => {
            let group = placement.group as u64;
            let max_size = if s.overlay_max_size.contains_key(group) && s.overlay_max_size[group]
                > size {
                s.overlay_max_size[group]
            } else {
                size
            };
            let recorded = LayoutView {
                overlay_lma_end: s.overlay_lma_end.insert(group, s.lma_offset),
                overlay_max_size: s.overlay_max_size.insert(group, max_size),
                ..s
            };
            if !s.overlay_vma.contains_key(group) {
                Ok(recorded)
            } else if !placement.is_last {
                Ok(LayoutView { mem_offset: s.overlay_vma[group], ..recorded })
            } else {
                match layout_state::plus(s.overlay_vma[group], max_size) {
                    None => Err(LayoutError::Overflow),
                    Some(mem_offset) => Ok(LayoutView { mem_offset, ..recorded }),
                }
            }
        },
    }
}

/// Leaves a section after its parts have been placed.
pub open spec fn section_end<'data>(s: LayoutView, placement: SectionPlacement<'data>) -> Result<
    LayoutView,
    LayoutError<'data>,
> {
    match leave_region(s, placement.region_name) {
        Err(error) => Err(error),
        Ok(left) => leave_overlay(
            leave_load_region(left, section_start::at_region_of(placement.info)),
            placement.overlay,
            s.section_layouts[placement.section_id.0 as int].mem_size,
        ),
    }
}

/// Lays out a section. `from` is the position of the event after the current one.
pub open spec fn section_step<'a, 'data>(
    s: LayoutView,
    ctx: &LayoutContext<'a, 'data>,
    id: OutputSectionId,
    from: int,
) -> Result<LayoutView, LayoutError<'data>> {
    match section_start::section_start(s, ctx, id) {
        Err(error) => Err(error),
        Ok((started, placement)) => {
            let entries = part_placement::parts_to_place(ctx, id);
            match part_placement::parts_step(
                started,
                ctx,
                placement,
                entries,
                entries.len() as int,
                from,
            ) {
                Err(error) => Err(error),
                Ok(placed) => section_end(placed, placement),
            }
        },
    }
}

/// The alignment of a segment that is loaded.
pub open spec fn segment_alignment<'a, 'data>(
    ctx: &LayoutContext<'a, 'data>,
    id: ProgramSegmentId,
) -> Alignment {
    match layout_state::lookup(ctx.segment_exponents(), id.0 as u64) {
        Some(exponent) => Alignment::of_exp(exponent as nat),
        None => ctx.args.loadable_segment_alignment,
    }
}

/// The offsets at which a loaded segment starts. If a linker script has said where, or if there
/// is something in the file that is not loaded, the file offset is moved on until it is congruent
/// to the address. Otherwise all offsets are aligned.
pub open spec fn segment_offsets<'data>(s: LayoutView, alignment: Alignment) -> Result<
    LayoutView,
    LayoutError<'data>,
> {
    if s.pending_location is Some || s.pad_file_at_next_load {
        let mem_offset = match s.pending_location {
            Some(address) => address,
            None => s.mem_offset,
        };
        let file_offset = crate::alignment::round_up_congruent(
            mem_offset as int,
            s.file_offset as int,
            alignment.bytes(),
        );
        if file_offset > u64::MAX {
            Err(LayoutError::Overflow)
        } else {
            Ok(
                LayoutView {
                    mem_offset,
                    lma_offset: mem_offset,
                    file_offset: file_offset as u64,
                    pad_file_at_next_load: false,
                    ..s
                },
            )
        }
    } else {
        match (
            layout_state::up(alignment, s.file_offset),
            layout_state::up(alignment, s.mem_offset),
            layout_state::up(alignment, s.lma_offset),
        ) {
            (Some(file_offset), Some(mem_offset), Some(lma_offset)) => Ok(
                LayoutView { file_offset, mem_offset, lma_offset, ..s },
            ),
            _ => Err(LayoutError::Overflow),
        }
    }
}

/// Starts a segment.
pub open spec fn segment_start<'a, 'data>(
    s: LayoutView,
    ctx: &LayoutContext<'a, 'data>,
    id: ProgramSegmentId,
) -> Result<LayoutView, LayoutError<'data>> {
    if !ctx.segments.def(id).loadable {
        Ok(s)
    } else {
        match segment_offsets(s, segment_alignment(ctx, id)) {
            Err(error) => Err(error),
            Ok(moved) => if moved.load_segment_depth == u32::MAX {
                Err(LayoutError::Overflow)
            } else {
                Ok(
                    LayoutView {
                        load_origins: moved.load_origins.push(
                            (moved.mem_offset, moved.lma_offset, moved.file_offset),
                        ),
                        load_segment_depth: (moved.load_segment_depth + 1) as u32,
                        ..moved
                    },
                )
            },
        }
    }
}

/// Ends a segment.
pub open spec fn segment_end<'a, 'data>(
    s: LayoutView,
    ctx: &LayoutContext<'a, 'data>,
    id: ProgramSegmentId,
) -> LayoutView {
    if !ctx.segments.def(id).loadable {
        s
    } else {
        LayoutView {
            load_origins: if s.load_origins.len() > 0 {
                s.load_origins.drop_last()
            } else {
                s.load_origins
            },
            load_segment_depth: if s.load_segment_depth > 0 {
                (s.load_segment_depth - 1) as u32
            } else {
                0
            },
            ..s
        }
    }
}

/// `. = expression` between sections. At the end of a section, `.` is where it ends.
pub open spec fn set_location<'a, 'data>(
    s: LayoutView,
    ctx: &LayoutContext<'a, 'data>,
    expression: Expression<'data>,
    loc: SymbolLoc,
    index: usize,
    from: int,
) -> Result<LayoutView, LayoutError<'data>> {
    let at_end = loc is SectionEnd;
    let before = if at_end {
        LayoutView {
            resolved_lc: s.resolved_lc.update(
                index as int,
                ResolvedLocationCounter { value: s.mem_offset, section_offset: None },
            ),
            ..s
        }
    } else {
        s
    };
    match LayoutState::evaluated(
        before,
        ctx,
        expression,
        LayoutState::location_value(s, loc),
        from,
    ) {
        Err(error) => Err(error),
        Ok(value) => Ok(
            LayoutView {
                pending_location: Some(value),
                resolved_lc: before.resolved_lc.update(
                    index as int,
                    ResolvedLocationCounter { value, section_offset: None },
                ),
                ..before
            },
        ),
    }
}

/// `. = expression` inside a section. A value below the start of the section is an offset in it.
pub open spec fn set_location_relative<'a, 'data>(
    s: LayoutView,
    ctx: &LayoutContext<'a, 'data>,
    expression: Expression<'data>,
    id: OutputSectionId,
    loc: SymbolLoc,
    index: usize,
    from: int,
) -> Result<LayoutView, LayoutError<'data>> {
    let base = s.section_layouts[ctx.sections.primary(id).0 as int].mem_offset;
    match LayoutState::evaluated(s, ctx, expression, LayoutState::location_value(s, loc), from) {
        Err(error) => Err(error),
        Ok(evaluated) => {
            let value = if evaluated >= base {
                evaluated as int
            } else {
                base + evaluated
            };
            if value > u64::MAX {
                Err(LayoutError::Overflow)
            } else {
                Ok(
                    LayoutView {
                        pending_location: Some(value as u64),
                        resolved_lc: s.resolved_lc.update(
                            index as int,
                            ResolvedLocationCounter {
                                value: value as u64,
                                section_offset: Some((value - base) as u64),
                            },
                        ),
                        ..s
                    },
                )
            }
        },
    }
}

/// The address that a section description gives. `.` is the address that is pending, or else
/// where the last section ends.
pub open spec fn set_section_address<'a, 'data>(
    s: LayoutView,
    ctx: &LayoutContext<'a, 'data>,
    expression: Expression<'data>,
    from: int,
) -> Result<LayoutView, LayoutError<'data>> {
    let current = match s.pending_location {
        Some(address) => address,
        None => s.mem_offset,
    };
    match LayoutState::evaluated(s, ctx, expression, Some(current), from) {
        Err(error) => Err(error),
        Ok(value) => Ok(LayoutView { pending_location: Some(value), ..s }),
    }
}

/// One event of the output order. `from` is the position of the event after it.
pub open spec fn event_step<'a, 'data>(
    s: LayoutView,
    ctx: &LayoutContext<'a, 'data>,
    event: OrderEvent<'data>,
    from: int,
) -> Result<LayoutView, LayoutError<'data>> {
    match event {
        OrderEvent::SetLocation(expression, loc, index) => set_location(
            s,
            ctx,
            expression,
            loc,
            index,
            from,
        ),
        OrderEvent::SetLocationRelative(expression, id, loc, index) => set_location_relative(
            s,
            ctx,
            expression,
            id,
            loc,
            index,
            from,
        ),
        OrderEvent::SetSectionAddress(expression) => set_section_address(s, ctx, expression, from),
        OrderEvent::SegmentStart(id) => segment_start(s, ctx, id),
        OrderEvent::SegmentEnd(id) => Ok(segment_end(s, ctx, id)),
        OrderEvent::Section(id) => section_step(s, ctx, id, from),
    }
}

/// The first `count` events of the output order.
pub open spec fn events_step<'a, 'data>(
    s: LayoutView,
    ctx: &LayoutContext<'a, 'data>,
    count: int,
) -> Result<LayoutView, LayoutError<'data>>
    decreases count,
{
    if count <= 0 {
        Ok(s)
    } else {
        match events_step(s, ctx, count - 1) {
            Err(error) => Err(error),
            Ok(before) => event_step(before, ctx, ctx.order.events@[count - 1], count),
        }
    }
}

proof fn lemma_events_step_error<'a, 'data>(
    s: LayoutView,
    ctx: &LayoutContext<'a, 'data>,
    count: int,
    total: int,
)
    requires
        0 <= count <= total,
        events_step(s, ctx, count) is Err,
    ensures
        events_step(s, ctx, total) == events_step(s, ctx, count),
    decreases total - count,
{
    if count < total {
        lemma_events_step_error(s, ctx, count + 1, total);
    }
}

/// If all events can be laid out, so can those before.
pub proof fn lemma_events_step_ok<'a, 'data>(
    s: LayoutView,
    ctx: &LayoutContext<'a, 'data>,
    count: int,
    total: int,
)
    requires
        0 <= count <= total,
        events_step(s, ctx, total) is Ok,
    ensures
        events_step(s, ctx, count) is Ok,
{
    if events_step(s, ctx, count) is Err {
        lemma_events_step_error(s, ctx, count, total);
    }
}

impl LayoutState {
    fn leave_region<'a, 'data>(
        &mut self,
        ctx: &LayoutContext<'a, 'data>,
        name: Option<&'data [u8]>,
    ) -> (result: Result<(), LayoutError<'data>>)
        requires
            old(self).wf(ctx),
        ensures
            match result {
                Ok(_) => leave_region(old(self).view(), name) == Ok::<_, LayoutError>(
                    final(self).view(),
                ) && final(self).wf(ctx),
                Err(error) => leave_region(old(self).view(), name) == Err::<LayoutView, _>(error),
            },
    {
        match name {
            Some(name) => match self.regions.get(name) {
                Some(region) => {
                    let max_offset: u64 = match region.origin.checked_add(region.length) {
                        Some(offset) => offset,
                        None => {
                            return Err(LayoutError::Overflow);
                        },
                    };
                    if self.mem_offset > max_offset {
                        return Err(
                            LayoutError::RegionOverflowed {
                                region: name,
                                bytes: self.mem_offset - max_offset,
                            },
                        );
                    }
                    if self.mem_offset < region.origin {
                        return Err(LayoutError::Overflow);
                    }
                    let mut left: MemoryRegion = region;
                    left.used = self.mem_offset - region.origin;
                    self.regions.set(crate::bytes::copy_bytes(name), left);
                },
                None => {},
            },
            None => {},
        }
        Ok(())
    }

    fn leave_load_region<'a, 'data>(
        &mut self,
        ctx: &LayoutContext<'a, 'data>,
        name: Option<&'data [u8]>,
    )
        requires
            old(self).wf(ctx),
        ensures
            final(self).view() == leave_load_region(old(self).view(), name),
            final(self).wf(ctx),
    {
        match name {
            Some(name) => match self.regions.get(name) {
                Some(region) => {
                    let mut left: MemoryRegion = region;
                    left.used_lma = self.lma_offset.saturating_sub(region.origin);
                    self.regions.set(crate::bytes::copy_bytes(name), left);
                },
                None => {},
            },
            None => {},
        }
    }

    fn leave_overlay<'a, 'data>(
        &mut self,
        ctx: &LayoutContext<'a, 'data>,
        overlay: Option<OverlayPlacement>,
        size: u64,
    ) -> (result: Result<(), LayoutError<'data>>)
        requires
            old(self).wf(ctx),
        ensures
            match result {
                Ok(_) => leave_overlay(old(self).view(), overlay, size) == Ok::<_, LayoutError>(
                    final(self).view(),
                ) && final(self).wf(ctx),
                Err(error) => leave_overlay(old(self).view(), overlay, size) == Err::<
                    LayoutView,
                    _,
                >(error),
            },
    {
        match overlay {
            None => Ok(()),
            Some(placement) => {
                let group: u64 = placement.group as u64;
                self.overlay_lma_end.insert(group, self.lma_offset);
                self.overlay_max_size.raise(group, size);
                match self.overlay_vma.get(group) {
                    None => {},
                    Some(vma) => {
                        if placement.is_last {
                            let max_size: u64 = match self.overlay_max_size.get(group) {
                                Some(max_size) => max_size,
                                None => size,
                            };
                            match vma.checked_add(max_size) {
                                Some(mem_offset) => {
                                    self.mem_offset = mem_offset;
                                },
                                None => {
                                    return Err(LayoutError::Overflow);
                                },
                            }
                        } else {
                            self.mem_offset = vma;
                        }
                    },
                }
                Ok(())
            },
        }
    }

    /// Lays out a section.
    pub fn do_section<'a, 'data>(
        &mut self,
        ctx: &LayoutContext<'a, 'data>,
        id: OutputSectionId,
        from: usize,
    ) -> (result: Result<(), LayoutError<'data>>)
        requires
            ctx.wf(),
            old(self).wf(ctx),
            ctx.sections.has(id),
            from <= ctx.order.events@.len(),
        ensures
            match result {
                Ok(_) => section_step(old(self).view(), ctx, id, from as int) == Ok::<
                    _,
                    LayoutError,
                >(final(self).view()) && final(self).wf(ctx),
                Err(error) => section_step(old(self).view(), ctx, id, from as int) == Err::<
                    LayoutView,
                    _,
                >(error),
            },
    {
        let placement: SectionPlacement<'data> = match self.start_section(ctx, id) {
            Ok(placement) => placement,
            Err(error) => {
                return Err(error);
            },
        };
        match self.place_parts(ctx, &placement, from) {
            Ok(_) => {},
            Err(error) => {
                return Err(error);
            },
        }
        let size: u64 = self.section_layouts.get(id).mem_size;
        match self.leave_region(ctx, placement.region_name) {
            Ok(_) => {},
            Err(error) => {
                return Err(error);
            },
        }
        self.leave_load_region(ctx, placement.info.at_region());
        self.leave_overlay(ctx, placement.overlay, size)
    }

    fn go_to_segment<'a, 'data>(
        &mut self,
        ctx: &LayoutContext<'a, 'data>,
        alignment: Alignment,
    ) -> (result: Result<(), LayoutError<'data>>)
        requires
            old(self).wf(ctx),
        ensures
            match result {
                Ok(_) => segment_offsets(old(self).view(), alignment) == Ok::<_, LayoutError>(
                    final(self).view(),
                ) && final(self).wf(ctx),
                Err(error) => segment_offsets(old(self).view(), alignment) == Err::<LayoutView, _>(
                    error,
                ),
            },
    {
        if self.pending_location.is_some() || self.pad_file_at_next_load {
            let mem_offset: u64 = match self.pending_location {
                Some(address) => address,
                None => self.mem_offset,
            };
            match alignment.checked_align_modulo(mem_offset, self.file_offset) {
                Some(file_offset) => {
                    self.file_offset = file_offset;
                },
                None => {
                    return Err(LayoutError::Overflow);
                },
            }
            self.mem_offset = mem_offset;
            self.lma_offset = mem_offset;
            self.pad_file_at_next_load = false;
            return Ok(());
        }
        let file_offset: u64 = match alignment.checked_align_up(self.file_offset) {
            Some(offset) => offset,
            None => {
                return Err(LayoutError::Overflow);
            },
        };
        let mem_offset: u64 = match alignment.checked_align_up(self.mem_offset) {
            Some(offset) => offset,
            None => {
                return Err(LayoutError::Overflow);
            },
        };
        let lma_offset: u64 = match alignment.checked_align_up(self.lma_offset) {
            Some(offset) => offset,
            None => {
                return Err(LayoutError::Overflow);
            },
        };
        self.file_offset = file_offset;
        self.mem_offset = mem_offset;
        self.lma_offset = lma_offset;
        Ok(())
    }

    fn start_segment<'a, 'data>(
        &mut self,
        ctx: &LayoutContext<'a, 'data>,
        id: ProgramSegmentId,
    ) -> (result: Result<(), LayoutError<'data>>)
        requires
            ctx.wf(),
            old(self).wf(ctx),
            ctx.segments.has(id),
        ensures
            match result {
                Ok(_) => segment_start(old(self).view(), ctx, id) == Ok::<_, LayoutError>(
                    final(self).view(),
                ) && final(self).wf(ctx),
                Err(error) => segment_start(old(self).view(), ctx, id) == Err::<LayoutView, _>(
                    error,
                ),
            },
    {
        if !ctx.segments.is_load_segment(id) {
            return Ok(());
        }
        let alignment: Alignment = match self.segment_alignments.get(id.0 as u64) {
            Some(exponent) => Alignment::from_exponent(exponent as u8),
            None => ctx.args.loadable_segment_alignment,
        };
        proof {
            alignment.lemma_of_exp();
        }
        match self.go_to_segment(ctx, alignment) {
            Ok(_) => {},
            Err(error) => {
                return Err(error);
            },
        }
        match self.load_segment_depth.checked_add(1) {
            Some(depth) => {
                self.load_segment_depth = depth;
            },
            None => {
                return Err(LayoutError::Overflow);
            },
        }
        self.load_origins.push((self.mem_offset, self.lma_offset, self.file_offset));
        Ok(())
    }

    fn end_segment<'a, 'data>(&mut self, ctx: &LayoutContext<'a, 'data>, id: ProgramSegmentId)
        requires
            ctx.wf(),
            old(self).wf(ctx),
            ctx.segments.has(id),
        ensures
            final(self).view() == segment_end(old(self).view(), ctx, id),
            final(self).wf(ctx),
    {
        if ctx.segments.is_load_segment(id) {
            if self.load_origins.len() > 0 {
                self.load_origins.pop();
            }
            self.load_segment_depth = self.load_segment_depth.saturating_sub(1);
        }
    }

    fn location_at<'a, 'data>(&self, ctx: &LayoutContext<'a, 'data>, loc: SymbolLoc) -> (value:
        Option<u64>)
        requires
            self.wf(ctx),
            crate::output_order::location_exists(loc, ctx.order.num_location_counters as int),
        ensures
            value == LayoutState::location_value(self.view(), loc),
    {
        match loc {
            SymbolLoc::Nowhere => None,
            SymbolLoc::SectionEnd => Some(self.mem_offset),
            SymbolLoc::LocationCounter(index) => Some(self.resolved_lc[index].value),
        }
    }

    fn do_set_location<'a, 'data>(
        &mut self,
        ctx: &LayoutContext<'a, 'data>,
        expression: &Expression<'data>,
        loc: SymbolLoc,
        index: usize,
        from: usize,
    ) -> (result: Result<(), LayoutError<'data>>)
        requires
            ctx.wf(),
            old(self).wf(ctx),
            crate::output_order::location_exists(loc, ctx.order.num_location_counters as int),
            index < ctx.order.num_location_counters,
            from <= ctx.order.events@.len(),
        ensures
            match result {
                Ok(_) => set_location(
                    old(self).view(),
                    ctx,
                    *expression,
                    loc,
                    index,
                    from as int,
                ) == Ok::<_, LayoutError>(final(self).view()) && final(self).wf(ctx),
                Err(error) => set_location(
                    old(self).view(),
                    ctx,
                    *expression,
                    loc,
                    index,
                    from as int,
                ) == Err::<LayoutView, _>(error),
            },
    {
        let location: Option<u64> = self.location_at(ctx, loc);
        if let SymbolLoc::SectionEnd = loc {
            self.resolved_lc.set(
                index,
                ResolvedLocationCounter { value: self.mem_offset, section_offset: None },
            );
        }
        match self.evaluate(ctx, expression, location, from) {
            Err(error) => Err(error),
            Ok(value) => {
                self.pending_location = Some(value);
                self.resolved_lc.set(
                    index,
                    ResolvedLocationCounter { value, section_offset: None },
                );
                Ok(())
            },
        }
    }

    fn do_set_location_relative<'a, 'data>(
        &mut self,
        ctx: &LayoutContext<'a, 'data>,
        expression: &Expression<'data>,
        id: OutputSectionId,
        loc: SymbolLoc,
        index: usize,
        from: usize,
    ) -> (result: Result<(), LayoutError<'data>>)
        requires
            ctx.wf(),
            old(self).wf(ctx),
            ctx.sections.has(id),
            crate::output_order::location_exists(loc, ctx.order.num_location_counters as int),
            index < ctx.order.num_location_counters,
            from <= ctx.order.events@.len(),
        ensures
            match result {
                Ok(_) => set_location_relative(
                    old(self).view(),
                    ctx,
                    *expression,
                    id,
                    loc,
                    index,
                    from as int,
                ) == Ok::<_, LayoutError>(final(self).view()) && final(self).wf(ctx),
                Err(error) => set_location_relative(
                    old(self).view(),
                    ctx,
                    *expression,
                    id,
                    loc,
                    index,
                    from as int,
                ) == Err::<LayoutView, _>(error),
            },
    {
        let primary: OutputSectionId = ctx.sections.primary_output_section(id);
        proof {
            ctx.sections.lemma_primary(id);
        }
        let base: u64 = self.section_layouts.get(primary).mem_offset;
        let location: Option<u64> = self.location_at(ctx, loc);
        let evaluated: u64 = match self.evaluate(ctx, expression, location, from) {
            Ok(value) => value,
            Err(error) => {
                return Err(error);
            },
        };
        let value: u64 = if evaluated >= base {
            evaluated
        } else {
            match base.checked_add(evaluated) {
                Some(value) => value,
                None => {
                    return Err(LayoutError::Overflow);
                },
            }
        };
        self.pending_location = Some(value);
        self.resolved_lc.set(
            index,
            ResolvedLocationCounter { value, section_offset: Some(value - base) },
        );
        Ok(())
    }

    fn do_set_section_address<'a, 'data>(
        &mut self,
        ctx: &LayoutContext<'a, 'data>,
        expression: &Expression<'data>,
        from: usize,
    ) -> (result: Result<(), LayoutError<'data>>)
        requires
            ctx.wf(),
            old(self).wf(ctx),
            from <= ctx.order.events@.len(),
        ensures
            match result {
                Ok(_) => set_section_address(old(self).view(), ctx, *expression, from as int)
                    == Ok::<_, LayoutError>(final(self).view()) && final(self).wf(ctx),
                Err(error) => set_section_address(old(self).view(), ctx, *expression, from as int)
                    == Err::<LayoutView, _>(error),
            },
    {
        let current: u64 = match self.pending_location {
            Some(address) => address,
            None => self.mem_offset,
        };
        match self.evaluate(ctx, expression, Some(current), from) {
            Err(error) => Err(error),
            Ok(value) => {
                self.pending_location = Some(value);
                Ok(())
            },
        }
    }

    fn do_event<'a, 'data>(
        &mut self,
        ctx: &LayoutContext<'a, 'data>,
        event: &OrderEvent<'data>,
        from: usize,
    ) -> (result: Result<(), LayoutError<'data>>)
        requires
            ctx.wf(),
            old(self).wf(ctx),
            ctx.order.event_wf(*event, ctx.sections, ctx.segments),
            from <= ctx.order.events@.len(),
        ensures
            match result {
                Ok(_) => event_step(old(self).view(), ctx, *event, from as int) == Ok::<
                    _,
                    LayoutError,
                >(final(self).view()) && final(self).wf(ctx),
                Err(error) => event_step(old(self).view(), ctx, *event, from as int) == Err::<
                    LayoutView,
                    _,
                >(error),
            },
    {
        match *event {
            OrderEvent::SetLocation(expression, loc, index) => self.do_set_location(
                ctx,
                &expression,
                loc,
                index,
                from,
            ),
            OrderEvent::SetLocationRelative(expression, id, loc, index) =>
                self.do_set_location_relative(ctx, &expression, id, loc, index, from),
            OrderEvent::SetSectionAddress(expression) => self.do_set_section_address(
                ctx,
                &expression,
                from,
            ),
            OrderEvent::SegmentStart(id) => self.start_segment(ctx, id),
            OrderEvent::SegmentEnd(id) => {
                self.end_segment(ctx, id);
                Ok(())
            },
            OrderEvent::Section(id) => self.do_section(ctx, id, from),
        }
    }

    /// Goes through all events of the output order.
    pub fn do_events<'a, 'data>(&mut self, ctx: &LayoutContext<'a, 'data>) -> (result: Result<
        (),
        LayoutError<'data>,
    >)
        requires
            ctx.wf(),
            old(self).wf(ctx),
        ensures
            match result {
                Ok(_) => events_step(old(self).view(), ctx, ctx.order.events@.len() as int) == Ok::<
                    _,
                    LayoutError,
                >(final(self).view()) && final(self).wf(ctx),
                Err(error) => events_step(old(self).view(), ctx, ctx.order.events@.len() as int)
                    == Err::<LayoutView, _>(error),
            },
    {
        let ghost start = self.view();
        let mut i: usize = 0;
        while i < ctx.order.events.len()
            invariant
                i <= ctx.order.events@.len(),
                ctx.wf(),
                self.wf(ctx),
                start == old(self).view(),
                events_step(start, ctx, i as int) == Ok::<_, LayoutError>(self.view()),
            decreases ctx.order.events@.len() - i,
        {
            match self.do_event(ctx, &ctx.order.events[i], i + 1) {
                Ok(_) => {},
                Err(error) => {
                    proof {
                        lemma_events_step_error(
                            start,
                            ctx,
                            i + 1,
                            ctx.order.events@.len() as int,
                        );
                    }
                    return Err(error);
                },
            }
            i = i + 1;
        }
        Ok(())
    }
}

} // verus!
