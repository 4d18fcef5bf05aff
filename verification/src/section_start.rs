//! Where a section starts.
use crate::alignment::Alignment;
use crate::layout_state::{LayoutContext, LayoutError, LayoutState, LayoutView};
use crate::memory_regions::{pick_compatible_memory_region, MemoryRegion};
use crate::output_section_id::OutputSectionId;
use crate::output_sections::{OverlayPlacement, SectionOutputInfo};
use vstd::prelude::*;

verus! {

/// What has been decided about a section before its parts are placed.
#[derive(Clone, Copy, Debug)]
pub struct SectionPlacement<'data> {
    pub section_id: OutputSectionId,
    /// The section that it is merged into.
    pub target: OutputSectionId,
    pub info: SectionOutputInfo<'data>,
    /// The largest alignment of the parts that have contents.
    pub max_alignment: Alignment,
    pub overlay: Option<OverlayPlacement>,
    pub region_name: Option<&'data [u8]>,
    /// The section follows the location counter though it is not allocated.
    pub follow_location_counter: bool,
}

/// The overlay that a section is part of.
pub open spec fn overlay_of(info: SectionOutputInfo) -> Option<OverlayPlacement> {
    match info.location_info {
        Some(location) => location.overlay,
        None => None,
    }
}

/// Whether a section is described directly in the `SECTIONS` command.
pub open spec fn is_top_level(info: SectionOutputInfo) -> bool {
    info.location_info matches Some(location) && location.is_top_level
}

/// Whether a section description gives an address.
pub open spec fn has_address(info: SectionOutputInfo) -> bool {
    info.location_info matches Some(location) && location.location is Some
}

/// The region that the load address of a section is in.
pub open spec fn at_region_of<'data>(info: SectionOutputInfo<'data>) -> Option<&'data [u8]> {
    match info.location_info {
        Some(location) => location.at_region,
        None => None,
    }
}

/// Whether a section description gives a load address.
pub open spec fn has_load_address(info: SectionOutputInfo) -> bool {
    info.location_info matches Some(location) && location.at_location is Some
}

/// Whether a section is in no overlay, or the first of its overlay.
pub open spec fn leads_overlay(overlay: Option<OverlayPlacement>) -> bool {
    overlay matches Some(placement) ==> placement.member == 0
}

impl<'data> SectionOutputInfo<'data> {
    fn overlay(&self) -> (overlay: Option<OverlayPlacement>)
        ensures
            overlay == overlay_of(*self),
    {
        match self.location_info {
            Some(location) => location.overlay,
            None => None,
        }
    }

    pub(crate) fn is_top_level(&self) -> (top_level: bool)
        ensures
            top_level == is_top_level(*self),
    {
        match self.location_info {
            Some(location) => location.is_top_level,
            None => false,
        }
    }

    pub(crate) fn has_address(&self) -> (has: bool)
        ensures
            has == has_address(*self),
    {
        match self.location_info {
            Some(location) => location.location.is_some(),
            None => false,
        }
    }

    pub(crate) fn at_region(&self) -> (region: Option<&'data [u8]>)
        ensures
            region == at_region_of(*self),
    {
        match self.location_info {
            Some(location) => location.at_region,
            None => None,
        }
    }

    fn has_load_address(&self) -> (has: bool)
        ensures
            has == has_load_address(*self),
    {
        match self.location_info {
            Some(location) => location.at_location.is_some(),
            None => false,
        }
    }
}

pub(crate) fn is_overlay_leader(overlay: Option<OverlayPlacement>) -> (leads: bool)
    ensures
        leads == leads_overlay(overlay),
{
    match overlay {
        Some(placement) => placement.member == 0,
        None => true,
    }
}

/// Enters or leaves the sections that take up thread-local address space only. They overlap what
/// follows, so the memory offset goes back to where it was.
pub open spec fn thread_local_step(s: LayoutView, info: SectionOutputInfo) -> LayoutView {
    if info.section_attributes.tls_address_space_only {
        LayoutView {
            tls_memsave: match s.tls_memsave {
                Some(saved) => Some(saved),
                None => Some(s.mem_offset),
            },
            ..s
        }
    } else {
        LayoutView {
            mem_offset: match s.tls_memsave {
                Some(saved) => saved,
                None => s.mem_offset,
            },
            tls_memsave: None,
            ..s
        }
    }
}

/// The region that a section goes into. Only sections that a linker script describes get one
/// without asking for it.
pub open spec fn region_for<'a, 'data>(
    s: LayoutView,
    ctx: &LayoutContext<'a, 'data>,
    info: SectionOutputInfo<'data>,
) -> Option<&'data [u8]> {
    if info.region_name is Some {
        info.region_name
    } else if info.location_info is Some {
        crate::memory_regions::compatible_region(
            s.regions,
            ctx.region_order@,
            info.section_attributes.alloc,
            info.section_attributes.writable,
            info.section_attributes.executable,
        )
    } else {
        None
    }
}

/// The region of a name, which must have been declared.
pub open spec fn declared<'data>(
    regions: Map<Seq<u8>, MemoryRegion>,
    name: Option<&'data [u8]>,
) -> Result<Option<MemoryRegion>, LayoutError<'data>> {
    match name {
        None => Ok(None),
        Some(name) => if regions.contains_key(name@) {
            Ok(Some(regions[name@]))
        } else {
            Err(LayoutError::RegionNotDeclared(name))
        },
    }
}

/// Goes to where the free part of the region starts.
pub open spec fn region_step<'data>(s: LayoutView, name: Option<&'data [u8]>) -> Result<
    LayoutView,
    LayoutError<'data>,
> {
    match declared(s.regions, name) {
        Err(error) => Err(error),
        Ok(None) => Ok(s),
        Ok(Some(region)) => match crate::layout_state::plus(region.origin, region.used) {
            None => Err(LayoutError::Overflow),
            Some(mem_offset) => Ok(LayoutView { mem_offset, ..s }),
        },
    }
}

/// Lets the load address go to where the free part of its region starts.
pub open spec fn load_region_step<'data>(s: LayoutView, name: Option<&'data [u8]>) -> Result<
    LayoutView,
    LayoutError<'data>,
> {
    match declared(s.regions, name) {
        Err(error) => Err(error),
        Ok(None) => Ok(s),
        Ok(Some(region)) => match crate::layout_state::plus(region.origin, region.used_lma) {
            None => Err(LayoutError::Overflow),
            Some(lma_offset) => Ok(LayoutView { lma_offset, ..s }),
        },
    }
}

/// All members of an overlay have the same address. Their load addresses follow each other.
pub open spec fn overlay_step(s: LayoutView, overlay: Option<OverlayPlacement>) -> LayoutView {
    match overlay {
        None => s,
        Some(placement) => {
            let group = placement.group as u64;
            if placement.member == 0 {
                LayoutView { overlay_vma: s.overlay_vma.insert(group, s.mem_offset), ..s }
            } else if s.overlay_vma.contains_key(group) {
                LayoutView {
                    mem_offset: s.overlay_vma[group],
                    lma_offset: if s.overlay_lma_end.contains_key(group) {
                        s.overlay_lma_end[group]
                    } else {
                        s.lma_offset
                    },
                    ..s
                }
            } else {
                s
            }
        },
    }
}

/// Goes forward to the address that a linker script asks for, if there is one. What is in the
/// file moves along. An address that has been passed already is not followed. Returns the new
/// state and whether the location counter is still followed.
pub open spec fn location_step<'a, 'data>(
    s: LayoutView,
    ctx: &LayoutContext<'a, 'data>,
    placement: SectionPlacement<'data>,
    region: Option<MemoryRegion>,
    address: Option<u64>,
) -> Result<(LayoutView, bool), LayoutError<'data>> {
    let follow = placement.follow_location_counter;
    match address {
        None => Ok((s, follow)),
        Some(address) => {
            let bounded = is_top_level(placement.info) && region is Some;
            let outside = LayoutError::AddressNotInRegion {
                section: placement.section_id,
                address,
                region: placement.region_name->0,
            };
            if bounded && address < s.mem_offset {
                Err(outside)
            } else if bounded && s.mem_offset + region->0.length > u64::MAX {
                Err(LayoutError::Overflow)
            } else if bounded && address > s.mem_offset + region->0.length {
                Err(outside)
            } else if address < s.mem_offset {
                Ok((s, false))
            } else if s.load_segment_depth == 0 {
                Ok((s, follow))
            } else {
                let moves_file = (placement.section_id == placement.target || !is_top_level(
                    placement.info,
                )) && !ctx.sections.info(placement.target).section_attributes.no_bits;
                if !moves_file {
                    Ok((LayoutView { mem_offset: address, ..s }, follow))
                } else {
                    match crate::layout_state::plus(s.file_offset, (address - s.mem_offset) as u64) {
                        None => Err(LayoutError::Overflow),
                        Some(file_offset) => Ok(
                            (LayoutView { mem_offset: address, file_offset, ..s }, follow),
                        ),
                    }
                }
            }
        },
    }
}

/// The load address is the address, unless something else has been said about it.
pub open spec fn load_address_step(
    s: LayoutView,
    info: SectionOutputInfo,
    overlay: Option<OverlayPlacement>,
) -> LayoutView {
    if at_region_of(info) is None && leads_overlay(overlay) && !has_load_address(info) {
        LayoutView { lma_offset: s.mem_offset, ..s }
    } else {
        s
    }
}

/// A section that a script describes, and that has no address of its own, is aligned for all of
/// its inputs.
pub open spec fn input_alignment_step<'a, 'data>(
    s: LayoutView,
    ctx: &LayoutContext<'a, 'data>,
    placement: SectionPlacement<'data>,
) -> Result<LayoutView, LayoutError<'data>> {
    match crate::layout_state::lookup(ctx.input_exponents(), placement.section_id.0 as u64) {
        Some(exponent) if is_top_level(placement.info) && !has_address(placement.info) => {
            let alignment = Alignment::of_exp(exponent as nat);
            let file_offset = if ctx.sections.info(placement.target).section_attributes.no_bits {
                Some(s.file_offset)
            } else {
                crate::layout_state::up(alignment, s.file_offset)
            };
            match (
                crate::layout_state::up(alignment, s.mem_offset),
                crate::layout_state::up(alignment, s.lma_offset),
                file_offset,
            ) {
                (Some(mem_offset), Some(lma_offset), Some(file_offset)) => Ok(
                    LayoutView { mem_offset, lma_offset, file_offset, ..s },
                ),
                _ => Err(LayoutError::Overflow),
            }
        },
        _ => Ok(s),
    }
}

/// Whether a section is not allocated and has an address of its own, like `.comment 0 :`. Such a
/// section neither uses nor follows the location counter.
pub open spec fn stands_apart(info: SectionOutputInfo) -> bool {
    !info.section_attributes.alloc && has_address(info)
}

/// What is decided about a section at first.
pub open spec fn initial_placement<'a, 'data>(
    s: LayoutView,
    ctx: &LayoutContext<'a, 'data>,
    id: OutputSectionId,
) -> SectionPlacement<'data> {
    let info = ctx.sections.info(id);
    let target = ctx.sections.primary(id);
    SectionPlacement {
        section_id: id,
        target,
        info,
        max_alignment: Alignment::of_exp(ctx.sizes.max_exponent(id, ctx.sections)),
        overlay: overlay_of(info),
        region_name: region_for(s, ctx, info),
        follow_location_counter: s.load_segment_depth > 0 && !stands_apart(
            ctx.sections.info(target),
        ) && target.0 >= ctx.sections.platform.built_in_count(),
    }
}

/// The address that a section is asked to have, and the state after the request has been taken.
pub open spec fn take_pending(s: LayoutView, target: SectionOutputInfo) -> (LayoutView, Option<u64>) {
    if stands_apart(target) {
        (s, None)
    } else {
        (LayoutView { pending_location: None, ..s }, s.pending_location)
    }
}

/// Takes a section into its regions and its overlay.
pub open spec fn regions_step<'data>(
    s: LayoutView,
    placement: SectionPlacement<'data>,
) -> Result<LayoutView, LayoutError<'data>> {
    match region_step(thread_local_step(s, placement.info), placement.region_name) {
        Err(error) => Err(error),
        Ok(in_region) => match load_region_step(in_region, at_region_of(placement.info)) {
            Err(error) => Err(error),
            Ok(loaded) => Ok(overlay_step(loaded, placement.overlay)),
        },
    }
}

/// Goes to the address of a section within its regions and its overlay.
pub open spec fn address_step<'a, 'data>(
    s: LayoutView,
    ctx: &LayoutContext<'a, 'data>,
    placement: SectionPlacement<'data>,
    region: Option<MemoryRegion>,
    address: Option<u64>,
) -> Result<(LayoutView, bool), LayoutError<'data>> {
    match location_step(s, ctx, placement, region, address) {
        Err(error) => Err(error),
        Ok((moved, follow)) => match input_alignment_step(
            load_address_step(moved, placement.info, placement.overlay),
            ctx,
            placement,
        ) {
            Err(error) => Err(error),
            Ok(aligned) => Ok((aligned, follow)),
        },
    }
}

/// Goes to where a section starts.
pub open spec fn section_start<'a, 'data>(
    s: LayoutView,
    ctx: &LayoutContext<'a, 'data>,
    id: OutputSectionId,
) -> Result<(LayoutView, SectionPlacement<'data>), LayoutError<'data>> {
    let placement = initial_placement(s, ctx, id);
    let (taken, address) = take_pending(s, ctx.sections.info(placement.target));
    match regions_step(taken, placement) {
        Err(error) => Err(error),
        Ok(entered) => match address_step(
            entered,
            ctx,
            placement,
            declared(s.regions, placement.region_name)->Ok_0,
            address,
        ) {
            Err(error) => Err(error),
            Ok((aligned, follow_location_counter)) => Ok(
                (aligned, SectionPlacement { follow_location_counter, ..placement }),
            ),
        },
    }
}

impl LayoutState {
    /// Whether what does not change is the same.
    pub open spec fn same_tables(&self, other: &LayoutState) -> bool {
        &&& self.records == other.records
        &&& self.segment_alignments == other.segment_alignments
        &&& self.input_alignments == other.input_alignments
    }

    fn enter_thread_local<'data>(&mut self, info: &SectionOutputInfo<'data>)
        ensures
            final(self).view() == thread_local_step(old(self).view(), *info),
            final(self).regions == old(self).regions,
            final(self).part_offsets == old(self).part_offsets,
            final(self).same_tables(old(self)),
    {
        if info.section_attributes.tls_address_space_only {
            if self.tls_memsave.is_none() {
                self.tls_memsave = Some(self.mem_offset);
            }
        } else {
            match self.tls_memsave {
                Some(saved) => {
                    self.mem_offset = saved;
                    self.tls_memsave = None;
                },
                None => {},
            }
        }
    }

    fn declared_region<'data>(&self, name: Option<&'data [u8]>) -> (region: Result<
        Option<MemoryRegion>,
        LayoutError<'data>,
    >)
        requires
            self.regions.wf(),
        ensures
            region == declared(self.regions@, name),
    {
        match name {
            None => Ok(None),
            Some(name) => match self.regions.get(name) {
                Some(region) => Ok(Some(region)),
                None => Err(LayoutError::RegionNotDeclared(name)),
            },
        }
    }

    fn enter_region<'data>(&mut self, name: Option<&'data [u8]>) -> (result: Result<
        Option<MemoryRegion>,
        LayoutError<'data>,
    >)
        requires
            old(self).regions.wf(),
        ensures
            match result {
                Ok(region) => region_step(old(self).view(), name) == Ok::<_, LayoutError>(
                    final(self).view(),
                ) && declared(old(self).regions@, name) == Ok::<_, LayoutError>(region)
                    && final(self).regions == old(self).regions && final(self).part_offsets == old(
                    self,
                ).part_offsets && final(self).same_tables(old(self)),
                Err(error) => region_step(old(self).view(), name) == Err::<LayoutView, _>(error),
            },
    {
        let region: Option<MemoryRegion> = match self.declared_region(name) {
            Ok(region) => region,
            Err(error) => {
                return Err(error);
            },
        };
        match region {
            Some(region) => match region.origin.checked_add(region.used) {
                Some(mem_offset) => {
                    self.mem_offset = mem_offset;
                },
                None => {
                    return Err(LayoutError::Overflow);
                },
            },
            None => {},
        }
        Ok(region)
    }

    fn enter_load_region<'data>(&mut self, name: Option<&'data [u8]>) -> (result: Result<
        (),
        LayoutError<'data>,
    >)
        requires
            old(self).regions.wf(),
        ensures
            match result {
                Ok(_) => load_region_step(old(self).view(), name) == Ok::<_, LayoutError>(
                    final(self).view(),
                ) && final(self).regions == old(self).regions && final(self).part_offsets == old(
                    self,
                ).part_offsets && final(self).same_tables(old(self)),
                Err(error) => load_region_step(old(self).view(), name) == Err::<LayoutView, _>(
                    error,
                ),
            },
    {
        match self.declared_region(name) {
            Err(error) => Err(error),
            Ok(None) => Ok(()),
            Ok(Some(region)) => match region.origin.checked_add(region.used_lma) {
                Some(lma_offset) => {
                    self.lma_offset = lma_offset;
                    Ok(())
                },
                None => Err(LayoutError::Overflow),
            },
        }
    }

    fn enter_overlay(&mut self, overlay: Option<OverlayPlacement>)
        ensures
            final(self).view() == overlay_step(old(self).view(), overlay),
            final(self).regions == old(self).regions,
            final(self).part_offsets == old(self).part_offsets,
            final(self).same_tables(old(self)),
    {
        match overlay {
            None => {},
            Some(placement) => {
                let group: u64 = placement.group as u64;
                if placement.member == 0 {
                    self.overlay_vma.insert(group, self.mem_offset);
                } else {
                    match self.overlay_vma.get(group) {
                        Some(vma) => {
                            self.mem_offset = vma;
                            match self.overlay_lma_end.get(group) {
                                Some(lma) => {
                                    self.lma_offset = lma;
                                },
                                None => {},
                            }
                        },
                        None => {},
                    }
                }
            },
        }
    }

    fn move_to_location<'a, 'data>(
        &mut self,
        ctx: &LayoutContext<'a, 'data>,
        placement: &SectionPlacement<'data>,
        region: Option<MemoryRegion>,
        address: Option<u64>,
    ) -> (follow: Result<bool, LayoutError<'data>>)
        requires
            ctx.sections.has(placement.target),
            region is Some ==> placement.region_name is Some,
        ensures
            match follow {
                Ok(follow) => location_step(
                    old(self).view(),
                    ctx,
                    *placement,
                    region,
                    address,
                ) == Ok::<_, LayoutError>((final(self).view(), follow)) && final(self).regions
                    == old(self).regions && final(self).part_offsets == old(self).part_offsets
                    && final(self).same_tables(old(self)),
                Err(error) => location_step(
                    old(self).view(),
                    ctx,
                    *placement,
                    region,
                    address,
                ) == Err::<(LayoutView, bool), _>(error),
            },
    {
        let address: u64 = match address {
            Some(address) => address,
            None => {
                return Ok(placement.follow_location_counter);
            },
        };
        let top_level: bool = placement.info.is_top_level();
        match (region, placement.region_name) {
            (Some(region), Some(name)) => {
                if top_level {
                    if address < self.mem_offset {
                        return Err(
                            LayoutError::AddressNotInRegion {
                                section: placement.section_id,
                                address,
                                region: name,
                            },
                        );
                    }
                    match self.mem_offset.checked_add(region.length) {
                        None => {
                            return Err(LayoutError::Overflow);
                        },
                        Some(end) => {
                            if address > end {
                                return Err(
                                    LayoutError::AddressNotInRegion {
                                        section: placement.section_id,
                                        address,
                                        region: name,
                                    },
                                );
                            }
                        },
                    }
                }
            },
            _ => {},
        }
        if address < self.mem_offset {
            return Ok(false);
        }
        if self.load_segment_depth > 0 {
            if (placement.section_id.0 == placement.target.0 || !top_level)
                && ctx.sections.has_data_in_file(placement.target) {
                match self.file_offset.checked_add(address - self.mem_offset) {
                    Some(file_offset) => {
                        self.file_offset = file_offset;
                    },
                    None => {
                        return Err(LayoutError::Overflow);
                    },
                }
            }
            self.mem_offset = address;
        }
        Ok(placement.follow_location_counter)
    }

    fn align_for_inputs<'a, 'data>(
        &mut self,
        ctx: &LayoutContext<'a, 'data>,
        placement: &SectionPlacement<'data>,
    ) -> (result: Result<(), LayoutError<'data>>)
        requires
            ctx.wf(),
            ctx.has_input_alignments(&old(self).input_alignments),
            ctx.sections.has(placement.target),
        ensures
            match result {
                Ok(_) => input_alignment_step(old(self).view(), ctx, *placement) == Ok::<
                    _,
                    LayoutError,
                >(final(self).view()) && final(self).regions == old(self).regions && final(self).part_offsets == old(self).part_offsets && final(self).same_tables(old(self)),
                Err(error) => input_alignment_step(old(self).view(), ctx, *placement) == Err::<
                    LayoutView,
                    _,
                >(error),
            },
    {
        if !placement.info.is_top_level() || placement.info.has_address() {
            return Ok(());
        }
        let exponent: u64 = match self.input_alignments.get(placement.section_id.0 as u64) {
            Some(exponent) => exponent,
            None => {
                return Ok(());
            },
        };
        let alignment: Alignment = Alignment::from_exponent(exponent as u8);
        proof {
            alignment.lemma_of_exp();
        }
        let mem_offset: u64 = match alignment.checked_align_up(self.mem_offset) {
            Some(offset) => offset,
            None => {
                return Err(LayoutError::Overflow);
            },
        };
        let lma_offset: u64 = match alignment.checked_align_up(self.lma_offset) {
            Some(offset) => offset,
            None => {
                return Err(LayoutError::Overflow);
            },
        };
        if ctx.sections.has_data_in_file(placement.target) {
            match alignment.checked_align_up(self.file_offset) {
                Some(offset) => {
                    self.file_offset = offset;
                },
                None => {
                    return Err(LayoutError::Overflow);
                },
            }
        }
        self.mem_offset = mem_offset;
        self.lma_offset = lma_offset;
        Ok(())
    }

    fn region_name_for<'a, 'data>(
        &self,
        ctx: &LayoutContext<'a, 'data>,
        info: &SectionOutputInfo<'data>,
    ) -> (name: Option<&'data [u8]>)
        requires
            self.regions.wf(),
        ensures
            name == region_for(self.view(), ctx, *info),
    {
        if info.region_name.is_some() {
            info.region_name
        } else if info.location_info.is_some() {
            pick_compatible_memory_region(
                &self.regions,
                ctx.region_order,
                info.section_attributes.alloc,
                info.section_attributes.writable,
                info.section_attributes.executable,
            )
        } else {
            None
        }
    }

    fn place_initially<'a, 'data>(
        &self,
        ctx: &LayoutContext<'a, 'data>,
        id: OutputSectionId,
    ) -> (placement: SectionPlacement<'data>)
        requires
            ctx.wf(),
            self.wf(ctx),
            ctx.sections.has(id),
        ensures
            placement == initial_placement(self.view(), ctx, id),
            ctx.sections.has(placement.target),
    {
        let info: SectionOutputInfo<'data> = ctx.sections.output_info(id);
        let target: OutputSectionId = ctx.sections.primary_output_section(id);
        proof {
            ctx.sections.lemma_primary(id);
        }
        let target_info: SectionOutputInfo<'data> = ctx.sections.output_info(target);
        let apart: bool = !target_info.section_attributes.alloc && target_info.has_address();
        let max_alignment: Alignment = ctx.sizes.max_alignment(id, ctx.sections);
        proof {
            max_alignment.lemma_of_exp();
        }
        SectionPlacement {
            section_id: id,
            target,
            info,
            max_alignment,
            overlay: info.overlay(),
            region_name: self.region_name_for(ctx, &info),
            follow_location_counter: self.load_segment_depth > 0 && !apart && target.is_custom(
                &ctx.sections.platform,
            ),
        }
    }

    fn enter_regions<'data>(&mut self, placement: &SectionPlacement<'data>) -> (result: Result<
        Option<MemoryRegion>,
        LayoutError<'data>,
    >)
        requires
            old(self).regions.wf(),
        ensures
            match result {
                Ok(region) => regions_step(old(self).view(), *placement) == Ok::<_, LayoutError>(
                    final(self).view(),
                ) && declared(old(self).regions@, placement.region_name) == Ok::<_, LayoutError>(
                    region,
                ) && final(self).regions == old(self).regions && final(self).part_offsets == old(
                    self,
                ).part_offsets && final(self).same_tables(old(self)),
                Err(error) => regions_step(old(self).view(), *placement) == Err::<LayoutView, _>(
                    error,
                ),
            },
    {
        self.enter_thread_local(&placement.info);
        let region: Option<MemoryRegion> = match self.enter_region(placement.region_name) {
            Ok(region) => region,
            Err(error) => {
                return Err(error);
            },
        };
        match self.enter_load_region(placement.info.at_region()) {
            Ok(_) => {},
            Err(error) => {
                return Err(error);
            },
        }
        self.enter_overlay(placement.overlay);
        Ok(region)
    }

    fn go_to_address<'a, 'data>(
        &mut self,
        ctx: &LayoutContext<'a, 'data>,
        placement: &SectionPlacement<'data>,
        region: Option<MemoryRegion>,
        address: Option<u64>,
    ) -> (follow: Result<bool, LayoutError<'data>>)
        requires
            ctx.wf(),
            ctx.has_input_alignments(&old(self).input_alignments),
            ctx.sections.has(placement.target),
            region is Some ==> placement.region_name is Some,
        ensures
            match follow {
                Ok(follow) => address_step(
                    old(self).view(),
                    ctx,
                    *placement,
                    region,
                    address,
                ) == Ok::<_, LayoutError>((final(self).view(), follow)) && final(self).regions
                    == old(self).regions && final(self).part_offsets == old(self).part_offsets
                    && final(self).same_tables(old(self)),
                Err(error) => address_step(
                    old(self).view(),
                    ctx,
                    *placement,
                    region,
                    address,
                ) == Err::<(LayoutView, bool), _>(error),
            },
    {
        let follow: bool = match self.move_to_location(ctx, placement, region, address) {
            Ok(follow) => follow,
            Err(error) => {
                return Err(error);
            },
        };
        if placement.info.at_region().is_none() && is_overlay_leader(placement.overlay)
            && !placement.info.has_load_address() {
            self.lma_offset = self.mem_offset;
        }
        match self.align_for_inputs(ctx, placement) {
            Ok(_) => {},
            Err(error) => {
                return Err(error);
            },
        }
        Ok(follow)
    }

    /// Goes to where a section starts.
    pub fn start_section<'a, 'data>(
        &mut self,
        ctx: &LayoutContext<'a, 'data>,
        id: OutputSectionId,
    ) -> (result: Result<SectionPlacement<'data>, LayoutError<'data>>)
        requires
            ctx.wf(),
            old(self).wf(ctx),
            ctx.sections.has(id),
        ensures
            match result {
                Ok(placement) => section_start(old(self).view(), ctx, id) == Ok::<_, LayoutError>(
                    (final(self).view(), placement),
                ) && final(self).wf(ctx) && placement.section_id == id && ctx.sections.has(
                    placement.target,
                ),
                Err(error) => section_start(old(self).view(), ctx, id) == Err::<
                    (LayoutView, SectionPlacement),
                    _,
                >(error),
            },
    {
        let mut placement: SectionPlacement<'data> = self.place_initially(ctx, id);
        let target_info: SectionOutputInfo<'data> = ctx.sections.output_info(placement.target);
        let address: Option<u64> = if !target_info.section_attributes.alloc
            && target_info.has_address() {
            None
        } else {
            let pending: Option<u64> = self.pending_location;
            self.pending_location = None;
            pending
        };
        assert((self.view(), address) == take_pending(old(self).view(), target_info));
        let region: Option<MemoryRegion> = match self.enter_regions(&placement) {
            Ok(region) => region,
            Err(error) => {
                return Err(error);
            },
        };
        let follow: bool = match self.go_to_address(ctx, &placement, region, address) {
            Ok(follow) => follow,
            Err(error) => {
                return Err(error);
            },
        };
        proof {
            lemma_start_keeps_results(old(self).view(), ctx, id);
        }
        placement.follow_location_counter = follow;
        Ok(placement)
    }
}

/// Whether two states have laid out the same.
pub open spec fn same_results(a: LayoutView, b: LayoutView) -> bool {
    &&& a.resolved_lc == b.resolved_lc
    &&& a.regions == b.regions
    &&& a.part_offsets == b.part_offsets
    &&& a.records == b.records
    &&& a.section_layouts == b.section_layouts
    &&& a.nonalloc_mem_offsets == b.nonalloc_mem_offsets
    &&& a.reloc_alloc_mem_offsets == b.reloc_alloc_mem_offsets
    &&& a.load_segment_depth == b.load_segment_depth
    &&& a.load_origins == b.load_origins
}

proof fn lemma_regions_keep_results<'data>(s: LayoutView, placement: SectionPlacement<'data>)
    ensures
        regions_step(s, placement) matches Ok(after) ==> same_results(after, s),
{
    let entered = thread_local_step(s, placement.info);
    assert(same_results(entered, s));
    if let Ok(in_region) = region_step(entered, placement.region_name) {
        assert(same_results(in_region, entered));
        if let Ok(loaded) = load_region_step(in_region, at_region_of(placement.info)) {
            assert(same_results(loaded, in_region));
            assert(same_results(overlay_step(loaded, placement.overlay), loaded));
        }
    }
}

proof fn lemma_address_keeps_results<'a, 'data>(
    s: LayoutView,
    ctx: &LayoutContext<'a, 'data>,
    placement: SectionPlacement<'data>,
    region: Option<MemoryRegion>,
    address: Option<u64>,
)
    ensures
        address_step(s, ctx, placement, region, address) matches Ok((after, _)) ==> same_results(
            after,
            s,
        ),
{
    if let Ok((moved, _)) = location_step(s, ctx, placement, region, address) {
        assert(same_results(moved, s));
        let loaded = load_address_step(moved, placement.info, placement.overlay);
        assert(same_results(loaded, moved));
        if let Ok(aligned) = input_alignment_step(loaded, ctx, placement) {
            assert(same_results(aligned, loaded));
        }
    }
}

/// Going to where a section starts has no effect on what has been laid out.
pub proof fn lemma_start_keeps_results<'a, 'data>(
    s: LayoutView,
    ctx: &LayoutContext<'a, 'data>,
    id: OutputSectionId,
)
    ensures
        section_start(s, ctx, id) matches Ok((after, _)) ==> same_results(after, s),
{
    let placement = initial_placement(s, ctx, id);
    let (taken, address) = take_pending(s, ctx.sections.info(placement.target));
    lemma_regions_keep_results(taken, placement);
    if let Ok(entered) = regions_step(taken, placement) {
        lemma_address_keeps_results(
            entered,
            ctx,
            placement,
            declared(s.regions, placement.region_name)->Ok_0,
            address,
        );
    }
}

} // verus!
