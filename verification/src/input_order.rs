//! Sections whose inputs are placed in the order of the command line.
use crate::alignment::Alignment;
use crate::hash_maps::IdMap;
use crate::output_section_id::{OutputSectionId, PartId};
use crate::output_sections::OutputSections;
use vstd::prelude::*;

verus! {

/// The inputs of a part: their alignments and sizes, in the order in which they are placed.
#[derive(Debug)]
pub struct PartInputs {
    pub part_id: PartId,
    pub inputs: Vec<(Alignment, u64)>,
}

/// The inputs of the parts that are placed in the order of the command line.
pub struct InputOrderSizes {
    pub parts: Vec<PartInputs>,
    /// Positions in `parts` by part ID.
    pub positions: IdMap,
}

/// Where a cursor stands after inputs have been placed, each at its own alignment; `None` if that
/// is not a 64-bit number.
pub open spec fn packed_end(start: u64, inputs: Seq<(Alignment, u64)>) -> Option<u64>
    decreases inputs.len(),
{
    if inputs.len() == 0 {
        Some(start)
    } else {
        match packed_end(start, inputs.drop_last()) {
            None => None,
            Some(cursor) => {
                let aligned = crate::alignment::round_up(cursor as int, inputs.last().0.bytes());
                if aligned + inputs.last().1 <= u64::MAX {
                    Some((aligned + inputs.last().1) as u64)
                } else {
                    None
                }
            },
        }
    }
}

/// The size that inputs take up when they are placed one after the other, each at its own
/// alignment; `None` if they end at no 64-bit address.
pub fn packed_span(start: u64, inputs: &Vec<(Alignment, u64)>) -> (span: Option<u64>)
    ensures
        span == (match packed_end(start, inputs@) {
            Some(end) => Some((end - start) as u64),
            None => None::<u64>,
        }),
        packed_end(start, inputs@) matches Some(end) ==> end >= start,
{
    let mut cursor: u64 = start;
    let mut i: usize = 0;
    while i < inputs.len()
        invariant
            i <= inputs@.len(),
            cursor >= start,
            packed_end(start, inputs@.take(i as int)) == Some(cursor),
        decreases inputs@.len() - i,
    {
        let (alignment, size) = inputs[i];
        proof {
            assert(inputs@.take(i + 1).drop_last() =~= inputs@.take(i as int));
            assert(inputs@.take(i + 1).last() == inputs@[i as int]);
        }
        let end: Option<u64> = match alignment.checked_align_up(cursor) {
            Some(aligned) => aligned.checked_add(size),
            None => None,
        };
        proof {
            crate::alignment::lemma_round_up(cursor as int, alignment.bytes());
        }
        match end {
            Some(end) => {
                cursor = end;
            },
            None => {
                proof {
                    lemma_packed_end_none(start, inputs@, i + 1);
                }
                return None;
            },
        }
        i = i + 1;
    }
    assert(inputs@.take(i as int) =~= inputs@);
    Some(cursor - start)
}

proof fn lemma_packed_end_none(start: u64, inputs: Seq<(Alignment, u64)>, i: int)
    requires
        0 <= i <= inputs.len(),
        packed_end(start, inputs.take(i)) is None,
    ensures
        packed_end(start, inputs) is None,
    decreases inputs.len() - i,
{
    if i < inputs.len() {
        assert(inputs.take(i + 1).drop_last() =~= inputs.take(i));
        lemma_packed_end_none(start, inputs, i + 1);
    } else {
        assert(inputs.take(i) =~= inputs);
    }
}

impl InputOrderSizes {
    /// Whether positions and parts agree, and no part is listed twice.
    pub open spec fn wf(&self) -> bool {
        &&& forall|id: u64| #[trigger]
            self.positions@.contains_key(id) ==> self.positions@[id] < self.parts@.len()
                && self.parts@[self.positions@[id] as int].part_id.0 == id
        &&& forall|i: int|
            0 <= i < self.parts@.len() ==> self.positions@.contains_key(
                (#[trigger] self.parts@[i]).part_id.0 as u64,
            ) && self.positions@[self.parts@[i].part_id.0 as u64] == i
    }

    /// The inputs of a part, if it is one of those.
    pub open spec fn inputs_of(&self, part: PartId) -> Option<Seq<(Alignment, u64)>> {
        if self.positions@.contains_key(part.0 as u64) {
            Some(self.parts@[self.positions@[part.0 as u64] as int].inputs@)
        } else {
            None
        }
    }

    /// No parts.
    pub fn new() -> (sizes: InputOrderSizes)
        ensures
            sizes.wf(),
            sizes.parts@.len() == 0,
            forall|part: PartId| #[trigger] sizes.inputs_of(part) is None,
    {
        InputOrderSizes { parts: Vec::new(), positions: IdMap::new() }
    }

    /// Records the inputs of a part.
    pub fn add(&mut self, part_id: PartId, inputs: Vec<(Alignment, u64)>)
        requires
            old(self).wf(),
            old(self).inputs_of(part_id) is None,
        ensures
            final(self).wf(),
            final(self).inputs_of(part_id) == Some(inputs@),
            forall|other: PartId|
                #![trigger final(self).inputs_of(other)]
                other != part_id ==> final(self).inputs_of(other) == old(self).inputs_of(other),
    {
        let position: u64 = self.parts.len() as u64;
        self.parts.push(PartInputs { part_id, inputs });
        self.positions.insert(part_id.0 as u64, position);
    }

    /// The size that the inputs of a part take up when they are placed from `start` on. The outer
    /// result is `None` for parts that are not placed in that way.
    pub fn span_of(&self, part_id: PartId, start: u64) -> (span: Option<Option<u64>>)
        requires
            self.wf(),
        ensures
            span == (match self.inputs_of(part_id) {
                None => None::<Option<u64>>,
                Some(inputs) => Some(
                    match packed_end(start, inputs) {
                        Some(end) => Some((end - start) as u64),
                        None => None::<u64>,
                    },
                ),
            }),
            self.inputs_of(part_id) matches Some(inputs) ==> (packed_end(
                start,
                inputs,
            ) matches Some(end) ==> end >= start),
    {
        match self.positions.get(part_id.0 as u64) {
            None => None,
            Some(position) => {
                assert(position < self.parts.len());
                Some(packed_span(start, &self.parts[position as usize].inputs))
            },
        }
    }
}

/// The exponent of the largest alignment of inputs.
pub open spec fn max_input_exponent(inputs: Seq<(Alignment, u64)>) -> nat
    decreases inputs.len(),
{
    if inputs.len() == 0 {
        0
    } else if inputs.last().0.exp() > max_input_exponent(inputs.drop_last()) {
        inputs.last().0.exp()
    } else {
        max_input_exponent(inputs.drop_last())
    }
}

/// Whether the inputs of a part go into the given section, perhaps by way of a secondary one.
pub open spec fn goes_to(part: PartInputs, id: u64, sections: &OutputSections) -> bool {
    sections.primary(
        OutputSectionId(sections.platform.section_of(part.part_id.0 as int) as u32),
    ).0 == id && part.inputs@.len() > 0
}

/// For each section, the exponent of the largest alignment of the inputs that go into it by way
/// of the first `count` parts. Sections without such inputs are left out.
pub open spec fn largest_exponents(
    parts: Seq<PartInputs>,
    count: int,
    sections: &OutputSections,
) -> Map<u64, u64>
    decreases count,
{
    if count <= 0 {
        Map::empty()
    } else {
        let before = largest_exponents(parts, count - 1, sections);
        let part = parts[count - 1];
        if part.inputs@.len() == 0 {
            before
        } else {
            let id = sections.primary(
                OutputSectionId(sections.platform.section_of(part.part_id.0 as int) as u32),
            ).0 as u64;
            let exponent = max_input_exponent(part.inputs@) as u64;
            before.insert(
                id,
                if before.contains_key(id) && before[id] > exponent {
                    before[id]
                } else {
                    exponent
                },
            )
        }
    }
}

fn largest_input_alignment(inputs: &Vec<(Alignment, u64)>) -> (exponent: u8)
    ensures
        exponent == max_input_exponent(inputs@),
        exponent <= 16,
{
    let mut largest: u8 = 0;
    let mut i: usize = 0;
    while i < inputs.len()
        invariant
            i <= inputs@.len(),
            largest <= 16,
            largest == max_input_exponent(inputs@.take(i as int)),
        decreases inputs@.len() - i,
    {
        proof {
            assert(inputs@.take(i + 1).drop_last() =~= inputs@.take(i as int));
            assert(inputs@.take(i + 1).last() == inputs@[i as int]);
        }
        let exponent: u8 = inputs[i].0.exponent();
        if exponent > largest {
            largest = exponent;
        }
        i = i + 1;
    }
    assert(inputs@.take(i as int) =~= inputs@);
    largest
}

/// For each section, the exponent of the largest alignment of the inputs that are placed in the
/// order of the command line.
pub fn input_order_max_align<'data>(
    sizes: &InputOrderSizes,
    sections: &OutputSections<'data>,
) -> (exponents: IdMap)
    requires
        sizes.wf(),
        sections.wf(),
        forall|i: int|
            0 <= i < sizes.parts@.len() ==> sections.platform.section_of(
                (#[trigger] sizes.parts@[i]).part_id.0 as int,
            ) < sections.count(),
    ensures
        exponents@ == largest_exponents(sizes.parts@, sizes.parts@.len() as int, sections),
        forall|id: u64| #[trigger] exponents@.contains_key(id) ==> exponents@[id] <= 16,
{
    let mut exponents: IdMap = IdMap::new();
    let mut i: usize = 0;
    while i < sizes.parts.len()
        invariant
            i <= sizes.parts@.len(),
            sections.wf(),
            forall|i: int|
                0 <= i < sizes.parts@.len() ==> sections.platform.section_of(
                    (#[trigger] sizes.parts@[i]).part_id.0 as int,
                ) < sections.count(),
            exponents@ == largest_exponents(sizes.parts@, i as int, sections),
            forall|id: u64| #[trigger] exponents@.contains_key(id) ==> exponents@[id] <= 16,
        decreases sizes.parts@.len() - i,
    {
        let part: &PartInputs = &sizes.parts[i];
        if part.inputs.len() > 0 {
            let largest: u8 = largest_input_alignment(&part.inputs);
            let id: OutputSectionId = sections.primary_output_section(
                part.part_id.output_section_id(&sections.platform),
            );
            exponents.raise(id.0 as u64, largest as u64);
        }
        i = i + 1;
    }
    exponents
}

/// A section's exponent is that of the largest alignment among the inputs that go into it.
pub proof fn lemma_largest_exponents(
    parts: Seq<PartInputs>,
    count: int,
    sections: &OutputSections,
    id: u64,
)
    requires
        0 <= count <= parts.len(),
        forall|i: int|
            0 <= i < parts.len() ==> max_input_exponent((#[trigger] parts[i]).inputs@) <= 16,
    ensures
        largest_exponents(parts, count, sections).contains_key(id) <==> exists|i: int|
            0 <= i < count && goes_to(#[trigger] parts[i], id, sections),
        largest_exponents(parts, count, sections).contains_key(id) ==> (forall|i: int|
            0 <= i < count && goes_to(#[trigger] parts[i], id, sections) ==> max_input_exponent(
                parts[i].inputs@,
            ) <= largest_exponents(parts, count, sections)[id]) && (exists|i: int|
            0 <= i < count && goes_to(#[trigger] parts[i], id, sections) && max_input_exponent(
                parts[i].inputs@,
            ) == largest_exponents(parts, count, sections)[id]),
    decreases count,
{
    if count > 0 {
        lemma_largest_exponents(parts, count - 1, sections, id);
        let part = parts[count - 1];
        let before = largest_exponents(parts, count - 1, sections);
        let now = largest_exponents(parts, count, sections);
        if goes_to(part, id, sections) {
            assert(now.contains_key(id));
        } else {
            assert(now.contains_key(id) == before.contains_key(id));
        }
    }
}

} // verus!
