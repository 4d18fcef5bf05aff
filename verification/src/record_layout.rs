//! The size and position of a section, a part of one or a segment.
use crate::alignment::Alignment;
use crate::output_section_map::DefaultValue;
use vstd::prelude::*;

verus! {

/// The sizes and positions of a segment, an output section or a part of one.
#[derive(Clone, Copy, Debug, PartialEq, Eq, Structural)]
pub struct OutputRecordLayout {
    pub file_size: u64,
    pub mem_size: u64,
    pub alignment: Alignment,
    pub file_offset: u64,
    pub mem_offset: u64,
    pub lma_offset: u64,
}

impl DefaultValue for OutputRecordLayout {
    open spec fn spec_default() -> OutputRecordLayout {
        OutputRecordLayout {
            file_size: 0,
            mem_size: 0,
            alignment: Alignment::spec_one(),
            file_offset: 0,
            mem_offset: 0,
            lma_offset: 0,
        }
    }

    fn default_value() -> (value: OutputRecordLayout) {
        OutputRecordLayout {
            file_size: 0,
            mem_size: 0,
            alignment: Alignment::one(),
            file_offset: 0,
            mem_offset: 0,
            lma_offset: 0,
        }
    }

    fn is_default(self) -> (default: bool) {
        self == OutputRecordLayout::default_value()
    }
}

pub open spec fn larger(a: u64, b: u64) -> u64 {
    if a >= b {
        a
    } else {
        b
    }
}

pub open spec fn smaller(a: u64, b: u64) -> u64 {
    if a <= b {
        a
    } else {
        b
    }
}

pub fn max_u64(a: u64, b: u64) -> (max: u64)
    ensures
        max == larger(a, b),
{
    if a >= b {
        a
    } else {
        b
    }
}

pub fn min_u64(a: u64, b: u64) -> (min: u64)
    ensures
        min == smaller(a, b),
{
    if a <= b {
        a
    } else {
        b
    }
}

impl OutputRecordLayout {
    /// Whether the ends of the record are 64-bit numbers.
    pub open spec fn in_range(self) -> bool {
        &&& self.file_offset + self.file_size <= u64::MAX
        &&& self.mem_offset + self.mem_size <= u64::MAX
    }

    pub open spec fn spec_file_end(self) -> int {
        self.file_offset + self.file_size
    }

    pub open spec fn spec_mem_end(self) -> int {
        self.mem_offset + self.mem_size
    }

    /// Where the record ends in the file.
    pub fn file_end(&self) -> (end: u64)
        requires
            self.in_range(),
        ensures
            end == self.spec_file_end(),
    {
        self.file_offset + self.file_size
    }

    /// Where the record ends in memory.
    pub fn mem_end(&self) -> (end: u64)
        requires
            self.in_range(),
        ensures
            end == self.spec_mem_end(),
    {
        self.mem_offset + self.mem_size
    }

    /// Adds the sizes of another record. Its alignment counts if it has a size.
    pub fn merge(&mut self, other: &OutputRecordLayout)
        requires
            old(self).mem_size + other.mem_size <= u64::MAX,
            old(self).file_size + other.file_size <= u64::MAX,
        ensures
            *final(self) == (OutputRecordLayout {
                mem_size: (old(self).mem_size + other.mem_size) as u64,
                file_size: (old(self).file_size + other.file_size) as u64,
                alignment: if other.mem_size > 0 {
                    old(self).alignment.spec_max(other.alignment)
                } else {
                    old(self).alignment
                },
                ..*old(self)
            }),
    {
        self.mem_size = self.mem_size + other.mem_size;
        self.file_size = self.file_size + other.file_size;
        if other.mem_size > 0 {
            self.alignment = self.alignment.max(other.alignment);
        }
    }
}

/// The layout of a section that consists of one part.
pub open spec fn first_part_section(
    part: OutputRecordLayout,
    min_alignment: Alignment,
) -> OutputRecordLayout {
    OutputRecordLayout {
        alignment: if part.mem_size > 0 {
            min_alignment.spec_max(part.alignment)
        } else {
            min_alignment
        },
        ..part
    }
}

/// The smallest record that holds a section as laid out so far and another part of it.
pub open spec fn section_with_part(
    section: OutputRecordLayout,
    part: OutputRecordLayout,
) -> OutputRecordLayout {
    let file_offset = smaller(section.file_offset, part.file_offset);
    let mem_offset = smaller(section.mem_offset, part.mem_offset);
    OutputRecordLayout {
        file_size: (if section.spec_file_end() >= part.spec_file_end() {
            section.spec_file_end() - file_offset
        } else {
            part.spec_file_end() - file_offset
        }) as u64,
        mem_size: (if section.spec_mem_end() >= part.spec_mem_end() {
            section.spec_mem_end() - mem_offset
        } else {
            part.spec_mem_end() - mem_offset
        }) as u64,
        alignment: if part.mem_size > 0 {
            section.alignment.spec_max(part.alignment)
        } else {
            section.alignment
        },
        file_offset,
        mem_offset,
        lma_offset: smaller(section.lma_offset, part.lma_offset),
    }
}

/// Extends the layout of a section by a part of it.
pub fn layout_section_from_part_layouts(
    part: &OutputRecordLayout,
    section_layout: &mut OutputRecordLayout,
    min_alignment: Alignment,
    is_first_part: bool,
)
    requires
        is_first_part || (part.in_range() && old(section_layout).in_range()),
    ensures
        *final(section_layout) == (if is_first_part {
            first_part_section(*part, min_alignment)
        } else {
            section_with_part(*old(section_layout), *part)
        }),
        part.in_range() ==> final(section_layout).in_range(),
{
    if is_first_part {
        *section_layout = *part;
        section_layout.alignment = min_alignment;
        if part.mem_size > 0 {
            section_layout.alignment = section_layout.alignment.max(part.alignment);
        }
        return;
    }
    let file_offset: u64 = min_u64(section_layout.file_offset, part.file_offset);
    let mem_offset: u64 = min_u64(section_layout.mem_offset, part.mem_offset);
    let lma_offset: u64 = min_u64(section_layout.lma_offset, part.lma_offset);
    let file_size: u64 = max_u64(section_layout.file_end(), part.file_end()) - file_offset;
    let mem_size: u64 = max_u64(section_layout.mem_end(), part.mem_end()) - mem_offset;
    let alignment: Alignment = if part.mem_size > 0 {
        section_layout.alignment.max(part.alignment)
    } else {
        section_layout.alignment
    };
    *section_layout = OutputRecordLayout {
        file_size,
        mem_size,
        alignment,
        file_offset,
        mem_offset,
        lma_offset,
    };
}

/// A section holds each of its parts.
pub proof fn lemma_section_with_part(section: OutputRecordLayout, part: OutputRecordLayout)
    requires
        section.in_range(),
        part.in_range(),
    ensures
        section_with_part(section, part).in_range(),
        section_with_part(section, part).mem_offset <= section.mem_offset,
        section.spec_mem_end() <= section_with_part(section, part).spec_mem_end(),
        section_with_part(section, part).mem_offset <= part.mem_offset,
        part.spec_mem_end() <= section_with_part(section, part).spec_mem_end(),
        section_with_part(section, part).file_offset <= section.file_offset,
        section.spec_file_end() <= section_with_part(section, part).spec_file_end(),
        section_with_part(section, part).file_offset <= part.file_offset,
        part.spec_file_end() <= section_with_part(section, part).spec_file_end(),
{
}

} // verus!
