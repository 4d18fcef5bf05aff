//! Which output sections are emitted, and at which index.
use crate::alignment::Alignment;
use crate::output_section_id::{file_header, OutputSectionId, PartId};
use crate::output_sections::{GnuBuildIdPlacement, OutputSections};
use vstd::prelude::*;

verus! {

impl<'data> OutputSections<'data> {
    /// The index of a section in the output; `None` if it is not emitted.
    pub open spec fn index_in_output(&self, id: int) -> Option<u32> {
        if 0 <= id < self.output_section_indexes@.len() {
            self.output_section_indexes@[id]
        } else {
            None
        }
    }

    /// Whether a section is emitted and is a proper one: the one that stands for the file header
    /// is not.
    pub open spec fn emitted(&self, id: int) -> bool {
        self.index_in_output(id) is Some && id != 1
    }

    /// The last emitted section before the given position.
    pub open spec fn last_emitted_before(&self, end: int) -> Option<OutputSectionId>
        decreases end,
    {
        if end <= 0 {
            None
        } else if self.emitted(end - 1) {
            Some(OutputSectionId((end - 1) as u32))
        } else {
            self.last_emitted_before(end - 1)
        }
    }

    /// The first emitted section from the given position.
    pub open spec fn first_emitted_from(&self, start: int) -> Option<OutputSectionId>
        decreases self.output_section_indexes@.len() - start,
    {
        if start >= self.output_section_indexes@.len() {
            None
        } else if self.emitted(start) {
            Some(OutputSectionId(start as u32))
        } else {
            self.first_emitted_from(start + 1)
        }
    }

    /// The index of a section in the output; `None` if it is not emitted.
    pub fn output_index_of_section(&self, id: OutputSectionId) -> (index: Option<u32>)
        ensures
            index == self.index_in_output(id.0 as int),
    {
        if (id.0 as usize) < self.output_section_indexes.len() {
            self.output_section_indexes[id.0 as usize]
        } else {
            None
        }
    }

    /// Whether a section is emitted.
    pub fn will_emit_section(&self, id: OutputSectionId) -> (emit: bool)
        ensures
            emit == (self.index_in_output(id.0 as int) is Some),
    {
        self.output_index_of_section(id).is_some()
    }

    /// The last emitted section with a lower ID. The section that stands for the file header does
    /// not count.
    pub fn previous_emitted_section_id(&self, id: OutputSectionId) -> (previous: Option<
        OutputSectionId,
    >)
        requires
            id.0 <= self.output_section_indexes@.len(),
        ensures
            previous == self.last_emitted_before(id.0 as int),
    {
        let mut end: u32 = id.0;
        while end > 0
            invariant
                end <= id.0 <= self.output_section_indexes@.len(),
                self.last_emitted_before(id.0 as int) == self.last_emitted_before(end as int),
            decreases end,
        {
            let candidate: OutputSectionId = OutputSectionId(end - 1);
            if self.will_emit_section(candidate) && candidate.0 != file_header().0 {
                return Some(candidate);
            }
            end = end - 1;
        }
        None
    }

    /// The first emitted section with a higher ID. The section that stands for the file header
    /// does not count.
    pub fn following_emitted_section_id(&self, id: OutputSectionId) -> (following: Option<
        OutputSectionId,
    >)
        requires
            self.output_section_indexes@.len() <= u32::MAX,
        ensures
            following == self.first_emitted_from(id.0 + 1),
    {
        if id.0 as usize >= self.output_section_indexes.len() {
            return None;
        }
        let mut start: usize = id.0 as usize + 1;
        while start < self.output_section_indexes.len()
            invariant
                self.output_section_indexes@.len() <= u32::MAX,
                self.first_emitted_from(id.0 + 1) == self.first_emitted_from(start as int),
            decreases self.output_section_indexes@.len() - start,
        {
            let candidate: OutputSectionId = OutputSectionId(start as u32);
            if self.will_emit_section(candidate) && candidate.0 != file_header().0 {
                return Some(candidate);
            }
            start = start + 1;
        }
        None
    }

    /// The index of a section, or of the last emitted section before it if it is not emitted.
    pub fn output_index_of_nearest_section(&self, id: OutputSectionId) -> (index: Option<u32>)
        requires
            id.0 <= self.output_section_indexes@.len(),
        ensures
            index == (match self.index_in_output(id.0 as int) {
                Some(index) => Some(index),
                None => match self.last_emitted_before(id.0 as int) {
                    Some(previous) => self.index_in_output(previous.0 as int),
                    None => None,
                },
            }),
    {
        match self.output_index_of_section(id) {
            Some(index) => Some(index),
            None => match self.previous_emitted_section_id(id) {
                Some(previous) => self.output_index_of_section(previous),
                None => None,
            },
        }
    }

    /// The part that the generated build-id note goes into.
    pub open spec fn build_id_part(&self) -> Option<PartId> {
        match self.platform.note_gnu_build_id_section_id {
            None => None,
            Some(builtin) => {
                let own = if builtin.0 < self.platform.regular_base() {
                    Some(PartId(builtin.0))
                } else {
                    None
                };
                match self.gnu_build_id_placement {
                    GnuBuildIdPlacement::Discard => None,
                    GnuBuildIdPlacement::Builtin => own,
                    GnuBuildIdPlacement::Merge(target) => if target == builtin || target.0
                        < self.platform.regular_base() {
                        own
                    } else {
                        Some(PartId((self.platform.base_part(target.0 as int) + 14) as u32))
                    },
                }
            },
        }
    }

    /// The part that the generated build-id note goes into, if it is emitted. In a section that
    /// it is merged into, it is aligned to four bytes.
    pub fn gnu_build_id_dest_part(&self) -> (part: Option<PartId>)
        requires
            self.wf(),
            self.gnu_build_id_placement matches GnuBuildIdPlacement::Merge(target) ==> target.0
                < self.platform.regular_base() || self.platform.numbers_parts_of(target),
        ensures
            part == self.build_id_part(),
    {
        match self.platform.note_gnu_build_id_section_id {
            None => None,
            Some(builtin) => match self.gnu_build_id_placement {
                GnuBuildIdPlacement::Discard => None,
                GnuBuildIdPlacement::Builtin => self.platform.single_part_id(builtin),
                GnuBuildIdPlacement::Merge(target) => {
                    if target.0 == builtin.0 || !target.is_regular(&self.platform) {
                        self.platform.single_part_id(builtin)
                    } else {
                        Some(
                            target.part_id_with_alignment(
                                &self.platform,
                                Alignment::from_exponent(2),
                            ),
                        )
                    }
                },
            },
        }
    }
}

/// The neighbours of a section are emitted, and nothing emitted lies between.
pub proof fn lemma_last_emitted_before(sections: &OutputSections, end: int)
    requires
        end <= u32::MAX,
    ensures
        match sections.last_emitted_before(end) {
            Some(id) => id.0 < end && sections.emitted(id.0 as int) && forall|other: int|
                id.0 < other < end ==> !#[trigger] sections.emitted(other),
            None => forall|other: int| 0 <= other < end ==> !#[trigger] sections.emitted(other),
        },
    decreases end,
{
    if end > 0 && !sections.emitted(end - 1) {
        lemma_last_emitted_before(sections, end - 1);
    }
}

} // verus!
