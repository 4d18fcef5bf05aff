//! Merging the layouts of secondary sections into those of their primary sections.
use crate::output_section_id::OutputSectionId;
use crate::output_section_map::{DefaultValue, OutputSectionMap};
use crate::output_sections::{OutputSections, SectionKind, SectionOutputInfo};
use crate::record_layout::OutputRecordLayout;
use vstd::prelude::*;

verus! {

/// Whether a linker script moves the location counter inside of a section.
pub open spec fn has_location_counters(info: SectionOutputInfo) -> bool {
    info.location_info matches Some(location) && location.location_counters.0
        < location.location_counters.1
}

/// An empty primary section at the start of a section description keeps its address, but takes
/// the file offset of the first secondary section that is in the file.
pub open spec fn with_offset_of(
    primary: OutputRecordLayout,
    secondary: OutputRecordLayout,
) -> OutputRecordLayout {
    if primary.file_size == 0 && primary.mem_size == 0 && secondary.file_size > 0
        && secondary.file_offset > primary.file_offset {
        OutputRecordLayout {
            file_offset: secondary.file_offset,
            lma_offset: secondary.lma_offset,
            ..primary
        }
    } else {
        primary
    }
}

/// A primary section that reaches to the end of a secondary section. There may be a gap between
/// them.
pub open spec fn reaching(
    primary: OutputRecordLayout,
    secondary: OutputRecordLayout,
) -> OutputRecordLayout {
    OutputRecordLayout {
        mem_size: if secondary.spec_mem_end() > primary.spec_mem_end() {
            (secondary.spec_mem_end() - primary.mem_offset) as u64
        } else {
            primary.mem_size
        },
        file_size: if secondary.spec_file_end() > primary.spec_file_end() {
            (secondary.spec_file_end() - primary.file_offset) as u64
        } else {
            primary.file_size
        },
        alignment: if secondary.mem_size > 0 {
            primary.alignment.spec_max(secondary.alignment)
        } else {
            primary.alignment
        },
        ..primary
    }
}

/// A primary section with the sizes of a secondary section added.
pub open spec fn with_sizes_of(
    primary: OutputRecordLayout,
    secondary: OutputRecordLayout,
) -> OutputRecordLayout {
    OutputRecordLayout {
        mem_size: (primary.mem_size + secondary.mem_size) as u64,
        file_size: (primary.file_size + secondary.file_size) as u64,
        alignment: if secondary.mem_size > 0 {
            primary.alignment.spec_max(secondary.alignment)
        } else {
            primary.alignment
        },
        ..primary
    }
}

/// A primary section after a secondary section has been merged into it. `None` if an end or a size
/// is not a 64-bit number.
pub open spec fn with_secondary(
    primary: OutputRecordLayout,
    secondary: OutputRecordLayout,
    location_counters: bool,
) -> Option<OutputRecordLayout> {
    if location_counters {
        let moved = with_offset_of(primary, secondary);
        if secondary.in_range() && moved.in_range() {
            Some(reaching(moved, secondary))
        } else {
            None
        }
    } else if primary.mem_size + secondary.mem_size <= u64::MAX && primary.file_size
        + secondary.file_size <= u64::MAX {
        Some(with_sizes_of(primary, secondary))
    } else {
        None
    }
}

/// The layouts after one section has been merged into its primary section.
pub open spec fn merge_step<'data>(
    layouts: Seq<OutputRecordLayout>,
    info: SectionOutputInfo<'data>,
    id: int,
) -> Result<Seq<OutputRecordLayout>, OutputSectionId> {
    match info.kind {
        SectionKind::Primary(_) => Ok(layouts),
        SectionKind::Secondary(primary) => match with_secondary(
            layouts[primary.0 as int],
            layouts[id],
            has_location_counters(info),
        ) {
            None => Err(OutputSectionId(id as u32)),
            Some(merged) => Ok(
                layouts.update(id, OutputRecordLayout::spec_default()).update(
                    primary.0 as int,
                    merged,
                ),
            ),
        },
    }
}

/// The layouts after the first `count` sections have been merged. A section that cannot be merged
/// is an error.
pub open spec fn merged_after<'data>(
    layouts: Seq<OutputRecordLayout>,
    sections: &OutputSections<'data>,
    count: int,
) -> Result<Seq<OutputRecordLayout>, OutputSectionId>
    decreases count,
{
    if count <= 0 {
        Ok(layouts)
    } else {
        match merged_after(layouts, sections, count - 1) {
            Err(id) => Err(id),
            Ok(before) => merge_step(before, sections.infos()[count - 1], count - 1),
        }
    }
}

proof fn lemma_merged_error<'data>(
    layouts: Seq<OutputRecordLayout>,
    sections: &OutputSections<'data>,
    count: int,
    total: int,
)
    requires
        0 <= count <= total,
        merged_after(layouts, sections, count) is Err,
    ensures
        merged_after(layouts, sections, total) == merged_after(layouts, sections, count),
    decreases total - count,
{
    if count < total {
        lemma_merged_error(layouts, sections, count + 1, total);
    }
}

impl<'data> SectionOutputInfo<'data> {
    fn has_location_counters(&self) -> (has: bool)
        ensures
            has == has_location_counters(*self),
    {
        match self.location_info {
            Some(location) => location.location_counters.0 < location.location_counters.1,
            None => false,
        }
    }
}

fn merge_secondary(
    primary: OutputRecordLayout,
    secondary: OutputRecordLayout,
    location_counters: bool,
) -> (merged: Option<OutputRecordLayout>)
    ensures
        merged == with_secondary(primary, secondary, location_counters),
{
    let mut merged: OutputRecordLayout = primary;
    if !location_counters {
        if primary.mem_size.checked_add(secondary.mem_size).is_none()
            || primary.file_size.checked_add(secondary.file_size).is_none() {
            return None;
        }
        merged.merge(&secondary);
        return Some(merged);
    }
    if merged.file_size == 0 && merged.mem_size == 0 && secondary.file_size > 0
        && secondary.file_offset > merged.file_offset {
        merged.file_offset = secondary.file_offset;
        merged.lma_offset = secondary.lma_offset;
    }
    let mem_end: Option<u64> = secondary.mem_offset.checked_add(secondary.mem_size);
    let file_end: Option<u64> = secondary.file_offset.checked_add(secondary.file_size);
    let own_mem_end: Option<u64> = merged.mem_offset.checked_add(merged.mem_size);
    let own_file_end: Option<u64> = merged.file_offset.checked_add(merged.file_size);
    match (mem_end, file_end, own_mem_end, own_file_end) {
        (Some(mem_end), Some(file_end), Some(own_mem_end), Some(own_file_end)) => {
            if mem_end > own_mem_end {
                merged.mem_size = mem_end - merged.mem_offset;
            }
            if file_end > own_file_end {
                merged.file_size = file_end - merged.file_offset;
            }
            if secondary.mem_size > 0 {
                merged.alignment = merged.alignment.max(secondary.alignment);
            }
            Some(merged)
        },
        _ => None,
    }
}

/// Merges the layouts of secondary sections into those of their primary sections. What is left of
/// a secondary section is empty. A section that cannot be merged is an error.
pub fn merge_secondary_parts<'data>(
    sections: &OutputSections<'data>,
    section_layouts: &OutputSectionMap<OutputRecordLayout>,
) -> (result: Result<OutputSectionMap<OutputRecordLayout>, OutputSectionId>)
    requires
        sections.wf(),
        section_layouts@.len() == sections.count(),
    ensures
        match result {
            Ok(merged) => merged_after(section_layouts@, sections, sections.count()) == Ok::<
                _,
                OutputSectionId,
            >(merged@),
            Err(id) => merged_after(section_layouts@, sections, sections.count()) == Err::<
                Seq<OutputRecordLayout>,
                _,
            >(id),
        },
{
    let mut merged: OutputSectionMap<OutputRecordLayout> = section_layouts.duplicate();
    let count: usize = sections.num_sections();
    let mut i: usize = 0;
    while i < count
        invariant
            i <= count,
            count == sections.count(),
            sections.wf(),
            merged@.len() == sections.count(),
            merged_after(section_layouts@, sections, i as int) == Ok::<_, OutputSectionId>(merged@),
        decreases count - i,
    {
        assert(sections.platform.base_part(sections.count()) <= u32::MAX);
        let id: OutputSectionId = OutputSectionId(i as u32);
        let info: SectionOutputInfo<'data> = sections.output_info(id);
        if let SectionKind::Secondary(primary) = info.kind {
            match merge_secondary(
                *merged.get(primary),
                *merged.get(id),
                info.has_location_counters(),
            ) {
                Some(layout) => {
                    merged.set(id, OutputRecordLayout::default_value());
                    merged.set(primary, layout);
                },
                None => {
                    proof {
                        lemma_merged_error(section_layouts@, sections, i + 1, count as int);
                    }
                    return Err(id);
                },
            }
        }
        i = i + 1;
    }
    Ok(merged)
}

/// After sections have been merged, nothing is left of the secondary ones.
pub proof fn lemma_secondary_sections_empty<'data>(
    layouts: Seq<OutputRecordLayout>,
    sections: &OutputSections<'data>,
    count: int,
    id: int,
)
    requires
        sections.wf(),
        layouts.len() == sections.count(),
        0 <= id < count <= sections.count(),
        sections.infos()[id].kind is Secondary,
    ensures
        merged_after(layouts, sections, count) matches Ok(merged) ==> merged.len() == layouts.len()
            && merged[id] == OutputRecordLayout::spec_default(),
    decreases count,
{
    lemma_merged_len(layouts, sections, count - 1);
    assert(sections.infos()[count - 1].kind matches SectionKind::Secondary(primary) ==> primary.0
        < sections.count() && sections.infos()[primary.0 as int].kind is Primary);
    if id < count - 1 {
        lemma_secondary_sections_empty(layouts, sections, count - 1, id);
    }
}

proof fn lemma_merged_len<'data>(
    layouts: Seq<OutputRecordLayout>,
    sections: &OutputSections<'data>,
    count: int,
)
    requires
        sections.wf(),
        layouts.len() == sections.count(),
        0 <= count <= sections.count(),
    ensures
        merged_after(layouts, sections, count) matches Ok(merged) ==> merged.len() == layouts.len(),
    decreases count,
{
    if count > 0 {
        lemma_merged_len(layouts, sections, count - 1);
        assert(sections.infos()[count - 1].kind matches SectionKind::Secondary(primary)
            ==> primary.0 < sections.count());
    }
}

} // verus!
