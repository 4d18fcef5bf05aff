//! Writes the sections of object files into a Mach-O file.
use crate::input_sections::SectionSlot;
use crate::layout_queries::{Layout, ObjectLayout};
use crate::macho_writer;
use crate::macho_writer::{
    apply_relocation, relocation_target, write_section_raw, RelInfo, RelocationError,
    RelocationTarget, WriteSectionError, WrittenRange, ARM64_RELOC_TLVP_LOAD_PAGEOFF12,
};
use crate::output_section_id::{OutputSectionId, PartId};
use vstd::prelude::*;

verus! {

/// A relocation of a section that is written.
#[derive(Clone, Copy, Debug, PartialEq, Eq, Structural)]
pub struct SectionRelocation {
    /// The offset in the section.
    pub offset: u32,
    pub r_type: u8,
    /// What relaxation made of it.
    pub relaxed: Option<RelInfo>,
    /// What its type says.
    pub raw: Option<RelInfo>,
    /// The symbol that it refers to, by its index among the symbols of the object.
    pub symbol_index: usize,
    /// The section of the object that the symbol is in.
    pub section_index: Option<usize>,
    /// The section of the output that defines the symbol.
    pub section_id: Option<OutputSectionId>,
}

/// Whether what a relocation refers to exists.
pub open spec fn relocation_wf<'data>(
    relocation: SectionRelocation,
    object: &ObjectLayout<'data>,
    layout: &Layout<'data>,
) -> bool {
    &&& relocation.symbol_index < object.symbol_id_range.num_symbols
    &&& relocation.section_index matches Some(index) ==> index < object.section_resolutions@.len()
    &&& relocation.section_id matches Some(id) ==> layout.output_sections.has(id)
}

/// Whether the symbols of an object are among those of a layout.
pub open spec fn object_fits<'data>(object: &ObjectLayout<'data>, layout: &Layout<'data>) -> bool {
    &&& layout.wf()
    &&& object.symbol_id_range.wf()
    &&& object.symbol_id_range.start_symbol_id.0 + object.symbol_id_range.num_symbols
        <= layout.symbol_resolutions@.len()
}

/// Why a section cannot be written.
#[derive(Clone, Copy, Debug, PartialEq, Eq, Structural)]
pub enum ObjectSectionError {
    /// Its contents cannot be written.
    Write(WriteSectionError),
    /// The section is not part of the output.
    NotLoaded,
    /// The place that is changed has no 64-bit address.
    Overflow,
    /// The relocation with the given index cannot be applied.
    Relocation(usize, RelocationError),
}

/// What a relocation writes.
pub open spec fn written_value<'data>(
    relocation: SectionRelocation,
    section_type: u8,
    section_address: u64,
    object: &ObjectLayout<'data>,
    layout: &Layout<'data>,
) -> Result<u64, RelocationError> {
    match macho_writer::target_of(
        layout,
        relocation.symbol_index,
        object.symbol_id_range,
        relocation.section_index,
        object.section_resolutions@,
        relocation.section_id,
        section_type,
        (section_address + relocation.offset) as u64,
    ) {
        None => Err(RelocationError::MissingResolution),
        Some(target) => if relocation.relaxed is None && relocation.r_type
            == ARM64_RELOC_TLVP_LOAD_PAGEOFF12 {
            Err(RelocationError::TlvNotRelaxed)
        } else {
            match if relocation.relaxed is Some {
                relocation.relaxed
            } else {
                relocation.raw
            } {
                None => Err(RelocationError::UnknownType),
                Some(info) => match macho_writer::computed_value(info, target) {
                    Some(value) => Ok(value),
                    None => Err(RelocationError::UnsupportedKind),
                },
            }
        },
    }
}

/// What the first `count` relocations write. The first that cannot be applied fails.
pub open spec fn written_values<'data>(
    relocations: Seq<SectionRelocation>,
    section_type: u8,
    section_address: u64,
    object: &ObjectLayout<'data>,
    layout: &Layout<'data>,
    count: int,
) -> Result<Seq<u64>, ObjectSectionError>
    decreases count,
{
    if count <= 0 {
        Ok(Seq::empty())
    } else {
        match written_values(
            relocations,
            section_type,
            section_address,
            object,
            layout,
            count - 1,
        ) {
            Err(error) => Err(error),
            Ok(values) => if section_address + relocations[count - 1].offset > u64::MAX {
                Err(ObjectSectionError::Overflow)
            } else {
                match written_value(
                    relocations[count - 1],
                    section_type,
                    section_address,
                    object,
                    layout,
                ) {
                    Ok(value) => Ok(values.push(value)),
                    Err(error) => Err(
                        ObjectSectionError::Relocation((count - 1) as usize, error),
                    ),
                }
            },
        }
    }
}

proof fn lemma_written_error<'data>(
    relocations: Seq<SectionRelocation>,
    section_type: u8,
    section_address: u64,
    object: &ObjectLayout<'data>,
    layout: &Layout<'data>,
    count: int,
    total: int,
)
    requires
        0 <= count <= total,
        written_values(
            relocations,
            section_type,
            section_address,
            object,
            layout,
            count,
        ) is Err,
    ensures
        written_values(relocations, section_type, section_address, object, layout, total)
            == written_values(relocations, section_type, section_address, object, layout, count),
    decreases total,
{
    if count < total {
        lemma_written_error(
            relocations,
            section_type,
            section_address,
            object,
            layout,
            count,
            total - 1,
        );
    }
}

/// Decides what the relocations of a section write, in order. `section_address` is `None` if the
/// section is not part of the output.
pub fn relocation_values<'data>(
    section_address: Option<u64>,
    section_type: u8,
    relocations: &Vec<SectionRelocation>,
    object: &ObjectLayout<'data>,
    layout: &Layout<'data>,
) -> (values: Result<Vec<u64>, ObjectSectionError>)
    requires
        object_fits(object, layout),
        forall|i: int|
            0 <= i < relocations@.len() ==> relocation_wf(
                #[trigger] relocations@[i],
                object,
                layout,
            ),
    ensures
        match section_address {
            None => values == Err::<Vec<u64>, _>(ObjectSectionError::NotLoaded),
            Some(address) => match written_values(
                relocations@,
                section_type,
                address,
                object,
                layout,
                relocations@.len() as int,
            ) {
                Ok(expected) => values matches Ok(values) && values@ == expected,
                Err(error) => values == Err::<Vec<u64>, _>(error),
            },
        },
{
    let address: u64 = match section_address {
        Some(address) => address,
        None => {
            return Err(ObjectSectionError::NotLoaded);
        },
    };
    let mut values: Vec<u64> = Vec::new();
    let mut i: usize = 0;
    while i < relocations.len()
        invariant
            i <= relocations@.len(),
            section_address == Some(address),
            object_fits(object, layout),
            forall|k: int|
                0 <= k < relocations@.len() ==> relocation_wf(
                    #[trigger] relocations@[k],
                    object,
                    layout,
                ),
            written_values(relocations@, section_type, address, object, layout, i as int) == Ok::<
                _,
                ObjectSectionError,
            >(values@),
        decreases relocations@.len() - i,
    {
        let relocation: SectionRelocation = relocations[i];
        let place: u64 = match address.checked_add(relocation.offset as u64) {
            Some(place) => place,
            None => {
                proof {
                    lemma_written_error(
                        relocations@,
                        section_type,
                        address,
                        object,
                        layout,
                        i + 1,
                        relocations@.len() as int,
                    );
                }
                return Err(ObjectSectionError::Overflow);
            },
        };
        let target: Result<RelocationTarget, RelocationError> = relocation_target(
            layout,
            relocation.symbol_index,
            object.symbol_id_range,
            relocation.section_index,
            &object.section_resolutions,
            relocation.section_id,
            section_type,
            place,
        );
        let value: Result<u64, RelocationError> = match target {
            Ok(target) => apply_relocation(
                target,
                relocation.r_type,
                relocation.relaxed,
                relocation.raw,
            ),
            Err(error) => Err(error),
        };
        match value {
            Ok(value) => {
                values.push(value);
            },
            Err(error) => {
                proof {
                    lemma_written_error(
                        relocations@,
                        section_type,
                        address,
                        object,
                        layout,
                        i + 1,
                        relocations@.len() as int,
                    );
                }
                return Err(ObjectSectionError::Relocation(i, error));
            },
        }
        i = i + 1;
    }
    Ok(values)
}

/// What is needed of a section of an object to write it.
pub struct ObjectSection<'a> {
    pub slot: SectionSlot,
    /// The part of the output that it is in.
    pub part_id: PartId,
    pub packed: bool,
    pub contents: &'a [u8],
    /// Its address in the output.
    pub address: Option<u64>,
    pub section_type: u8,
    pub relocations: &'a Vec<SectionRelocation>,
}

/// What the file of an object says of one of its sections.
pub struct SectionInput<'a> {
    pub packed: bool,
    pub contents: &'a [u8],
    pub section_type: u8,
    pub relocations: Vec<SectionRelocation>,
}

/// A section of an object: what its file says of it, and where it goes.
pub open spec fn section_at<'a, 'data>(
    object: &ObjectLayout<'data>,
    inputs: Seq<SectionInput<'a>>,
    index: int,
) -> ObjectSection<'a> {
    ObjectSection {
        slot: object.sections@[index],
        part_id: object.section_part_ids@[index],
        packed: inputs[index].packed,
        contents: inputs[index].contents,
        address: object.section_resolutions@[index].spec_address(),
        section_type: inputs[index].section_type,
        relocations: &inputs[index].relocations,
    }
}

/// The sections of an object.
pub open spec fn sections_of<'a, 'data>(
    object: &ObjectLayout<'data>,
    inputs: Seq<SectionInput<'a>>,
) -> Seq<ObjectSection<'a>> {
    Seq::new(inputs.len(), |i: int| section_at(object, inputs, i))
}

/// A section that was written.
pub struct WrittenSection {
    /// Where its contents are in its part.
    pub range: WrittenRange,
    /// The values of its relocations.
    pub values: Vec<u64>,
}

/// What is known of a section that was written.
pub ghost struct WrittenView {
    pub range: WrittenRange,
    pub values: Seq<u64>,
}

impl View for WrittenSection {
    type V = WrittenView;

    open spec fn view(&self) -> WrittenView {
        WrittenView { range: self.range, values: self.values@ }
    }
}

/// What the relocations of a section write.
pub open spec fn spec_relocation_values<'data>(
    address: Option<u64>,
    section_type: u8,
    relocations: Seq<SectionRelocation>,
    object: &ObjectLayout<'data>,
    layout: &Layout<'data>,
) -> Result<Seq<u64>, ObjectSectionError> {
    match address {
        None => Err(ObjectSectionError::NotLoaded),
        Some(address) => written_values(
            relocations,
            section_type,
            address,
            object,
            layout,
            relocations.len() as int,
        ),
    }
}

/// What writing a section does to its part: the bytes of the part, the position after the section,
/// and what was written. The contents are written before the relocations are looked at.
pub open spec fn section_written<'a, 'data>(
    part: Seq<u8>,
    position: usize,
    section: ObjectSection<'a>,
    object: &ObjectLayout<'data>,
    layout: &Layout<'data>,
) -> (Seq<u8>, usize, Result<WrittenView, ObjectSectionError>)
    recommends
        section.slot is Loaded,
{
    match macho_writer::raw_written(
        part,
        position,
        section.slot->Loaded_0,
        section.contents@,
        section.part_id,
        section.packed,
        &layout.output_sections,
    ) {
        Err(error) => (part, position, Err(ObjectSectionError::Write(error))),
        Ok((bytes, range, end)) => (
            bytes,
            end,
            match spec_relocation_values(
                section.address,
                section.section_type,
                section.relocations@,
                object,
                layout,
            ) {
                Ok(values) => Ok(WrittenView { range, values }),
                Err(error) => Err(error),
            },
        ),
    }
}

/// Whether there is room in the tables for the part of a section, and what its relocations refer to
/// exists.
pub open spec fn section_wf<'a, 'data>(
    section: ObjectSection<'a>,
    parts: int,
    object: &ObjectLayout<'data>,
    layout: &Layout<'data>,
) -> bool {
    let id = layout.output_sections.platform.section_of(section.part_id.0 as int);
    section.slot is Loaded ==> {
        &&& section.part_id.0 < parts
        &&& id <= u32::MAX
        &&& layout.output_sections.has(OutputSectionId(id as u32))
        &&& forall|i: int|
            0 <= i < section.relocations@.len() ==> relocation_wf(
                #[trigger] section.relocations@[i],
                object,
                layout,
            )
    }
}

/// Writes a section of an object at the given position of its part, and decides what its
/// relocations write. Returns the position after it too.
pub fn write_object_section<'a, 'data>(
    part: &mut [u8],
    position: usize,
    section: &ObjectSection<'a>,
    object: &ObjectLayout<'data>,
    layout: &Layout<'data>,
) -> (result: (usize, Result<WrittenSection, ObjectSectionError>))
    requires
        position <= old(part)@.len(),
        object_fits(object, layout),
        section.slot is Loaded,
        section_wf(*section, section.part_id.0 + 1, object, layout),
    ensures
        final(part)@.len() == old(part)@.len(),
        result.0 <= final(part)@.len(),
        ({
            let (bytes, end, written) = section_written(
                old(part)@,
                position,
                *section,
                object,
                layout,
            );
            &&& final(part)@ == bytes
            &&& result.0 == end
            &&& match written {
                Ok(view) => result.1 matches Ok(written) && written@ == view,
                Err(error) => result.1 matches Err(e) && e == error,
            }
        }),
{
    match section.slot {
        SectionSlot::Loaded(loaded) => {
            match write_section_raw(
                part,
                position,
                loaded,
                section.contents,
                section.part_id,
                section.packed,
                &layout.output_sections,
            ) {
                Err(error) => (position, Err(ObjectSectionError::Write(error))),
                Ok((range, end)) => {
                    match relocation_values(
                        section.address,
                        section.section_type,
                        section.relocations,
                        object,
                        layout,
                    ) {
                        Ok(values) => (end, Ok(WrittenSection { range, values })),
                        Err(error) => (end, Err(error)),
                    }
                },
            }
        },
        _ => (position, Err(ObjectSectionError::NotLoaded)),
    }
}

/// How far the sections of an object have been written.
pub ghost struct ObjectProgress {
    /// The bytes of each part.
    pub parts: Seq<Seq<u8>>,
    /// Where the next section of each part goes.
    pub positions: Seq<usize>,
    /// For each section that is part of the output, what was written.
    pub written: Seq<WrittenView>,
    /// Why a section could not be written. Nothing more is written then.
    pub error: Option<ObjectSectionError>,
}

/// The parts after the first `count` sections of an object are written. Sections that are not
/// loaded are passed over.
pub open spec fn object_written<'a, 'data>(
    start: ObjectProgress,
    list: Seq<ObjectSection<'a>>,
    object: &ObjectLayout<'data>,
    layout: &Layout<'data>,
    count: int,
) -> ObjectProgress
    decreases count,
{
    if count <= 0 {
        start
    } else {
        let before = object_written(start, list, object, layout, count - 1);
        let section = list[count - 1];
        if before.error is Some || !(section.slot is Loaded) {
            before
        } else {
            let part = section.part_id.0 as int;
            let (bytes, end, written) = section_written(
                before.parts[part],
                before.positions[part],
                section,
                object,
                layout,
            );
            ObjectProgress {
                parts: before.parts.update(part, bytes),
                positions: before.positions.update(part, end),
                written: match written {
                    Ok(view) => before.written.push(view),
                    Err(_) => before.written,
                },
                error: match written {
                    Ok(_) => None,
                    Err(error) => Some(error),
                },
            }
        }
    }
}

proof fn lemma_object_error<'a, 'data>(
    start: ObjectProgress,
    list: Seq<ObjectSection<'a>>,
    object: &ObjectLayout<'data>,
    layout: &Layout<'data>,
    count: int,
    total: int,
)
    requires
        0 <= count <= total,
        object_written(start, list, object, layout, count).error is Some,
    ensures
        object_written(start, list, object, layout, total) == object_written(
            start,
            list,
            object,
            layout,
            count,
        ),
    decreases total,
{
    if count < total {
        lemma_object_error(start, list, object, layout, count, total - 1);
    }
}

/// The bytes of each part.
pub open spec fn bytes_of(parts: Seq<Vec<u8>>) -> Seq<Seq<u8>> {
    parts.map_values(|part: Vec<u8>| part@)
}

/// What was written of each section.
pub open spec fn views_of(written: Seq<WrittenSection>) -> Seq<WrittenView> {
    written.map_values(|section: WrittenSection| section@)
}

/// Writes the sections of an object that are part of the output, each after what its part holds
/// already. The first that cannot be written fails.
pub fn write_object<'a, 'data>(
    parts: &mut Vec<Vec<u8>>,
    positions: &mut Vec<usize>,
    object: &ObjectLayout<'data>,
    inputs: &'a Vec<SectionInput<'a>>,
    layout: &Layout<'data>,
) -> (result: Result<Vec<WrittenSection>, ObjectSectionError>)
    requires
        object_fits(object, layout),
        object.sections@.len() == inputs@.len(),
        object.section_part_ids@.len() == inputs@.len(),
        object.section_resolutions@.len() == inputs@.len(),
        old(parts)@.len() == old(positions)@.len(),
        forall|p: int|
            0 <= p < old(parts)@.len() ==> #[trigger] old(positions)@[p] <= old(parts)@[p]@.len(),
        forall|i: int|
            0 <= i < inputs@.len() ==> section_wf(
                #[trigger] sections_of(object, inputs@)[i],
                old(parts)@.len() as int,
                object,
                layout,
            ),
    ensures
        ({
            let end = object_written(
                ObjectProgress {
                    parts: bytes_of(old(parts)@),
                    positions: old(positions)@,
                    written: Seq::empty(),
                    error: None,
                },
                sections_of(object, inputs@),
                object,
                layout,
                inputs@.len() as int,
            );
            &&& bytes_of(final(parts)@) == end.parts
            &&& final(positions)@ == end.positions
            &&& match end.error {
                None => result matches Ok(written) && views_of(written@) == end.written,
                Some(error) => result matches Err(e) && e == error,
            }
        }),
{
    let ghost start = ObjectProgress {
        parts: bytes_of(parts@),
        positions: positions@,
        written: Seq::empty(),
        error: None,
    };
    let ghost count = parts@.len();
    let ghost list = sections_of(object, inputs@);
    let mut written: Vec<WrittenSection> = Vec::new();
    assert(views_of(written@) =~= Seq::<WrittenView>::empty());
    let mut i: usize = 0;
    while i < inputs.len()
        invariant
            i <= inputs@.len(),
            object_fits(object, layout),
            object.sections@.len() == inputs@.len(),
            object.section_part_ids@.len() == inputs@.len(),
            object.section_resolutions@.len() == inputs@.len(),
            list == sections_of(object, inputs@),
            parts@.len() == count,
            positions@.len() == count,
            forall|p: int|
                0 <= p < count ==> #[trigger] positions@[p] <= parts@[p]@.len(),
            forall|k: int|
                0 <= k < list.len() ==> section_wf(
                    #[trigger] list[k],
                    count as int,
                    object,
                    layout,
                ),
            start == (ObjectProgress {
                parts: bytes_of(old(parts)@),
                positions: old(positions)@,
                written: Seq::empty(),
                error: None,
            }),
            object_written(start, list, object, layout, i as int) == (ObjectProgress {
                parts: bytes_of(parts@),
                positions: positions@,
                written: views_of(written@),
                error: None,
            }),
        decreases inputs@.len() - i,
    {
        let input: &SectionInput<'a> = &inputs[i];
        let section: ObjectSection<'_> = ObjectSection {
            slot: object.sections[i],
            part_id: object.section_part_ids[i],
            packed: input.packed,
            contents: input.contents,
            address: object.section_resolutions[i].address(),
            section_type: input.section_type,
            relocations: &input.relocations,
        };
        assert(section == list[i as int]);
        if let SectionSlot::Loaded(_) = section.slot {
            assert(section_wf(list[i as int], count as int, object, layout));
            let part: usize = section.part_id.0 as usize;
            let position: usize = positions[part];
            let ghost old_parts = parts@;
            let ghost old_written = written@;
            let (end, outcome) = write_object_section(
                parts[part].as_mut_slice(),
                position,
                &section,
                object,
                layout,
            );
            positions.set(part, end);
            assert(bytes_of(parts@) =~= bytes_of(old_parts).update(
                part as int,
                parts@[part as int]@,
            ));
            match outcome {
                Ok(section_written) => {
                    written.push(section_written);
                    assert(views_of(written@) =~= views_of(old_written).push(section_written@));
                },
                Err(error) => {
                    proof {
                        lemma_object_error(
                            start,
                            list,
                            object,
                            layout,
                            i + 1,
                            inputs@.len() as int,
                        );
                    }
                    return Err(error);
                },
            }
        }
        i = i + 1;
    }
    Ok(written)
}

/// Writing an object leaves alone what was written before it: no part loses bytes before the
/// position that it had, the positions only grow, and the sizes of the parts stay.
pub proof fn lemma_earlier_bytes_stay<'a, 'data>(
    start: ObjectProgress,
    list: Seq<ObjectSection<'a>>,
    object: &ObjectLayout<'data>,
    layout: &Layout<'data>,
    count: int,
    part: int,
)
    requires
        start.parts.len() == start.positions.len(),
        0 <= part < start.parts.len(),
        start.positions[part] <= start.parts[part].len() <= usize::MAX,
        0 <= count <= list.len(),
        forall|i: int|
            0 <= i < list.len() ==> section_wf(
                #[trigger] list[i],
                start.parts.len() as int,
                object,
                layout,
            ),
    ensures
        ({
            let end = object_written(start, list, object, layout, count);
            &&& end.parts.len() == start.parts.len()
            &&& end.positions.len() == start.positions.len()
            &&& end.parts[part].len() == start.parts[part].len()
            &&& start.positions[part] <= end.positions[part] <= end.parts[part].len()
            &&& end.parts[part].take(start.positions[part] as int) == start.parts[part].take(
                start.positions[part] as int,
            )
        }),
    decreases count,
{
    if count > 0 {
        lemma_earlier_bytes_stay(start, list, object, layout, count - 1, part);
        let before = object_written(start, list, object, layout, count - 1);
        let end = object_written(start, list, object, layout, count);
        let section = list[count - 1];
        assert(section_wf(section, start.parts.len() as int, object, layout));
        if before.error is None && section.slot is Loaded && section.part_id.0 == part {
            assert forall|k: int| 0 <= k < start.positions[part] implies end.parts[part][k]
                == start.parts[part][k] by {
                assert(before.parts[part].take(start.positions[part] as int)[k]
                    == start.parts[part].take(start.positions[part] as int)[k]);
            }
        }
        assert(end.parts[part].take(start.positions[part] as int) =~= start.parts[part].take(
            start.positions[part] as int,
        ));
    }
}

} // verus!
