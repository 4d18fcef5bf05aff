//! Sections that are sorted among those of other files.
use crate::alignment;
use crate::alignment::Alignment;
use crate::file_id::FileId;
use crate::groups::ObjectState;
use crate::input_sections;
use crate::input_sections::{InputSection, SectionSlot, SortedSection};
use crate::output_section_id::PartId;
use crate::output_section_part_map::OutputSectionPartMap;
use vstd::prelude::*;

verus! {

/// A section that is sorted among those of other files.
#[derive(Clone, Copy, Debug, PartialEq, Eq, Structural)]
pub struct InputSortedSection {
    pub file_id: FileId,
    pub section_index: usize,
    pub part_id: PartId,
    pub size: u64,
    pub alignment: Alignment,
}

/// Where the first `count` sections are, and where their parts go on. `None` if an address is not a
/// 64-bit number.
pub open spec fn sorted_after(
    sections: Seq<InputSortedSection>,
    offsets: Map<u32, u64>,
    count: int,
) -> Option<(Seq<u64>, Map<u32, u64>)>
    decreases count,
{
    if count <= 0 {
        Some((Seq::empty(), offsets))
    } else {
        match sorted_after(sections, offsets, count - 1) {
            None => None,
            Some((addresses, before)) => {
                let section = sections[count - 1];
                let address = alignment::round_up(
                    input_sections::offset_of(before, section.part_id) as int,
                    section.alignment.bytes(),
                );
                if address + section.size > u64::MAX {
                    None
                } else {
                    Some(
                        (
                            addresses.push(address as u64),
                            before.insert(section.part_id.0, (address + section.size) as u64),
                        ),
                    )
                }
            },
        }
    }
}

proof fn lemma_sorted_none(
    sections: Seq<InputSortedSection>,
    offsets: Map<u32, u64>,
    count: int,
    total: int,
)
    requires
        0 <= count <= total,
        sorted_after(sections, offsets, count) is None,
    ensures
        sorted_after(sections, offsets, total) is None,
    decreases total,
{
    if count < total {
        lemma_sorted_none(sections, offsets, count, total - 1);
    }
}

proof fn lemma_round(section: InputSortedSection, offsets: Map<u32, u64>)
    ensures
        ({
            let offset = input_sections::offset_of(offsets, section.part_id) as int;
            let address = alignment::round_up(offset, section.alignment.bytes());
            &&& section.alignment.bytes() > 0
            &&& offset <= address
            &&& address % section.alignment.bytes() == 0
        }),
{
    vstd::arithmetic::power2::lemma_pow2_pos(section.alignment.exp());
    alignment::lemma_round_up(
        input_sections::offset_of(offsets, section.part_id) as int,
        section.alignment.bytes(),
    );
}

/// Gives sections addresses in the order in which they have been sorted. They follow what the last
/// group has in their parts. `None` if there is no room.
pub fn assign_addresses_to_sorted_sections(
    offsets: &mut OutputSectionPartMap<u64>,
    sections: &Vec<InputSortedSection>,
) -> (addresses: Option<Vec<u64>>)
    requires
        old(offsets).wf(),
    ensures
        final(offsets).wf(),
        final(offsets).dense() == old(offsets).dense(),
        match sorted_after(sections@, old(offsets)@, sections@.len() as int) {
            Some((expected, after)) => {
                &&& addresses matches Some(addresses)
                &&& addresses@ == expected
                &&& final(offsets)@ == after
            },
            None => addresses is None,
        },
{
    let ghost start = offsets@;
    let mut addresses: Vec<u64> = Vec::new();
    let mut i: usize = 0;
    while i < sections.len()
        invariant
            i <= sections@.len(),
            offsets.wf(),
            offsets.dense() == old(offsets).dense(),
            start == old(offsets)@,
            sorted_after(sections@, start, i as int) == Some((addresses@, offsets@)),
        decreases sections@.len() - i,
    {
        let section: InputSortedSection = sections[i];
        proof {
            lemma_round(section, offsets@);
        }
        let offset: u64 = offsets.get(section.part_id);
        let address: u64 = match section.alignment.checked_align_up(offset) {
            Some(address) => address,
            None => {
                proof {
                    lemma_sorted_none(sections@, start, i + 1, sections@.len() as int);
                }
                return None;
            },
        };
        let end: u64 = match address.checked_add(section.size) {
            Some(end) => end,
            None => {
                proof {
                    lemma_sorted_none(sections@, start, i + 1, sections@.len() as int);
                }
                return None;
            },
        };
        offsets.set(section.part_id, end);
        addresses.push(address);
        i = i + 1;
    }
    Some(addresses)
}

/// Notes the address that a sorted section of an object has been given.
pub fn set_sorted_address(object: &mut ObjectState, section_index: usize, address: u64)
    requires
        section_index < old(object).inputs@.len(),
        old(object).inputs@[section_index as int].slot is Sorted,
    ensures
        crate::section_loading::with_slot(
            *old(object),
            *final(object),
            section_index as int,
            SectionSlot::Sorted(
                SortedSection {
                    address,
                    section: old(object).inputs@[section_index as int].slot->Sorted_0.section,
                },
            ),
        ),
{
    let input: InputSection = object.inputs[section_index];
    if let SectionSlot::Sorted(sorted) = input.slot {
        object.inputs.set(
            section_index,
            InputSection {
                slot: SectionSlot::Sorted(SortedSection { address, section: sorted.section }),
                part_id: input.part_id,
                packed: input.packed,
                executable: input.executable,
            },
        );
    }
}

/// Where a part goes on is not before the end of any section in it.
proof fn lemma_sections_before_offset(
    sections: Seq<InputSortedSection>,
    offsets: Map<u32, u64>,
    count: int,
    index: int,
)
    requires
        0 <= index < count <= sections.len(),
        sorted_after(sections, offsets, count) is Some,
    ensures
        (sorted_after(sections, offsets, count)->0).0.len() == count,
        (sorted_after(sections, offsets, count)->0).0[index] + sections[index].size
            <= input_sections::offset_of(
            (sorted_after(sections, offsets, count)->0).1,
            sections[index].part_id,
        ),
    decreases count,
{
    let (addresses, before) = sorted_after(sections, offsets, count - 1)->0;
    lemma_sorted_length(sections, offsets, count - 1);
    let last = sections[count - 1];
    lemma_round(last, before);
    if index < count - 1 {
        lemma_sections_before_offset(sections, offsets, count - 1, index);
    }
}

proof fn lemma_sorted_length(
    sections: Seq<InputSortedSection>,
    offsets: Map<u32, u64>,
    count: int,
)
    requires
        0 <= count,
        sorted_after(sections, offsets, count) is Some,
    ensures
        (sorted_after(sections, offsets, count)->0).0.len() == count,
    decreases count,
{
    if count > 0 {
        lemma_sorted_length(sections, offsets, count - 1);
    }
}

/// Sorted sections are aligned, and those of a part follow each other in the order in which they
/// have been sorted.
pub proof fn lemma_sorted_sections_follow(
    sections: Seq<InputSortedSection>,
    offsets: Map<u32, u64>,
    count: int,
    first: int,
    second: int,
)
    requires
        0 <= first < second < count <= sections.len(),
        sections[first].part_id == sections[second].part_id,
        sorted_after(sections, offsets, count) is Some,
    ensures
        ({
            let addresses = (sorted_after(sections, offsets, count)->0).0;
            &&& addresses.len() == count
            &&& addresses[second] as int % sections[second].alignment.bytes() == 0
            &&& addresses[first] + sections[first].size <= addresses[second]
        }),
    decreases count,
{
    lemma_sorted_length(sections, offsets, count);
    lemma_sorted_length(sections, offsets, count - 1);
    let (addresses, before) = sorted_after(sections, offsets, count - 1)->0;
    if second < count - 1 {
        lemma_sorted_sections_follow(sections, offsets, count - 1, first, second);
    } else {
        lemma_sections_before_offset(sections, offsets, count - 1, first);
        let last = sections[second];
        lemma_round(last, before);
    }
}

} // verus!
