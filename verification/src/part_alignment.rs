//! The alignments that the parts of sections get.
use crate::alignment::Alignment;
use crate::output_order::{OrderEvent, OutputOrder};
use crate::output_section_id::{OutputSectionId, PartId, PartRange};
use crate::output_section_map::DefaultValue;
use crate::output_section_part_map::OutputSectionPartMap;
use crate::output_sections::OutputSections;
use crate::program_segments::ProgramSegments;
use vstd::prelude::*;

verus! {

/// Whether one of the first `count` events emits a section.
pub open spec fn emitted_before(events: Seq<OrderEvent>, count: int, section: int) -> bool {
    exists|i: int|
        0 <= i < count && (#[trigger] events[i] matches OrderEvent::Section(id) && id.0 == section)
}

proof fn lemma_emitted_before(events: Seq<OrderEvent>, count: int, section: int)
    requires
        0 <= count,
    ensures
        emitted_before(events, count + 1, section) <==> emitted_before(events, count, section) || (
        events[count] matches OrderEvent::Section(id) && id.0 == section),
{
    if emitted_before(events, count + 1, section) && !emitted_before(events, count, section) {
        let i = choose|i: int|
            0 <= i < count + 1 && (#[trigger] events[i] matches OrderEvent::Section(id) && id.0
                == section);
        assert(i == count);
    }
}

/// Whether one of the entries is that of a part.
pub open spec fn has_part<T>(list: Seq<(PartId, Alignment, T)>, part: u32) -> bool {
    exists|k: int| 0 <= k < list.len() && (#[trigger] list[k]).0.0 == part
}

proof fn lemma_has_part_joined<T>(
    a: Seq<(PartId, Alignment, T)>,
    b: Seq<(PartId, Alignment, T)>,
    part: u32,
)
    ensures
        has_part(a + b, part) <==> has_part(a, part) || has_part(b, part),
{
    let joined = a + b;
    if has_part(a, part) {
        let k = choose|k: int| 0 <= k < a.len() && (#[trigger] a[k]).0.0 == part;
        assert(joined[k].0.0 == part);
    }
    if has_part(b, part) {
        let k = choose|k: int| 0 <= k < b.len() && (#[trigger] b[k]).0.0 == part;
        assert(joined[a.len() + k].0.0 == part);
    }
    if has_part(joined, part) {
        let k = choose|k: int| 0 <= k < joined.len() && (#[trigger] joined[k]).0.0 == part;
        if k < a.len() {
            assert(a[k].0.0 == part);
        } else {
            assert(b[k - a.len()].0.0 == part);
        }
    }
}

/// The default value for each part below `count`.
pub open spec fn dense_defaults<U: DefaultValue>(count: nat) -> Map<u32, U> {
    Map::new(|part: u32| part < count, |part: u32| U::spec_default())
}

/// A map after the images of the first entries of a list were stored in it, in the order of the
/// list.
pub open spec fn filled<T, U>(
    base: Map<u32, U>,
    list: Seq<(PartId, Alignment, T)>,
    images: Seq<U>,
) -> Map<u32, U>
    decreases images.len(),
{
    if images.len() == 0 {
        base
    } else {
        filled(base, list, images.drop_last()).insert(
            list[images.len() - 1].0.0,
            images.last(),
        )
    }
}

proof fn lemma_filled<T, U>(
    base: Map<u32, U>,
    list: Seq<(PartId, Alignment, T)>,
    images: Seq<U>,
    part: u32,
)
    requires
        images.len() <= list.len(),
    ensures
        filled(base, list, images).contains_key(part) <==> base.contains_key(part) || has_part(
            list.take(images.len() as int),
            part,
        ),
        !has_part(list.take(images.len() as int), part) && base.contains_key(part) ==> filled(
            base,
            list,
            images,
        )[part] == base[part],
    decreases images.len(),
{
    if images.len() > 0 {
        let count = images.len() - 1;
        let last = seq![list[count]];
        lemma_filled(base, list, images.drop_last(), part);
        assert(list.take(count + 1) =~= list.take(count) + last);
        lemma_has_part_joined(list.take(count), last, part);
        assert(last[0] == list[count]);
        assert(has_part(last, part) <==> list[count].0.0 == part);
    }
}

/// A filled map holds for a part the image of the last entry of that part.
pub proof fn lemma_filled_with_last<T, U>(
    base: Map<u32, U>,
    list: Seq<(PartId, Alignment, T)>,
    images: Seq<U>,
    k: int,
)
    requires
        0 <= k < images.len() <= list.len(),
        forall|j: int| k < j < images.len() ==> (#[trigger] list[j]).0 != list[k].0,
    ensures
        filled(base, list, images).contains_key(list[k].0.0),
        filled(base, list, images)[list[k].0.0] == images[k],
    decreases images.len(),
{
    let last = images.len() - 1;
    if k < last {
        lemma_filled_with_last(base, list, images.drop_last(), k);
        assert(list[last].0 != list[k].0);
    }
}

/// Whether `states` and `images` are what the first calls of `cb` along a list leave: each call
/// gets the state that the one before it left, the first one gets `initial`, and returns the next
/// state and an image.
pub open spec fn runs_along<S, T, U, F: Fn(S, PartId, Alignment, T) -> (S, U)>(
    list: Seq<(PartId, Alignment, T)>,
    initial: S,
    cb: F,
    states: Seq<S>,
    images: Seq<U>,
) -> bool {
    &&& images.len() <= list.len()
    &&& states.len() == images.len() + 1
    &&& states[0] == initial
    &&& forall|k: int|
        0 <= k < images.len() ==> call_ensures(
            cb,
            (states[k], list[k].0, list[k].1, list[k].2),
            (states[k + 1], #[trigger] images[k]),
        )
}

/// Whether calls of `cb` along a whole list can end in a state and turn a map into another one.
pub open spec fn maps_along<S, T, U, F: Fn(S, PartId, Alignment, T) -> (S, U)>(
    list: Seq<(PartId, Alignment, T)>,
    initial: S,
    cb: F,
    base: Map<u32, U>,
    state: S,
    mapped: Map<u32, U>,
) -> bool {
    exists|states: Seq<S>, images: Seq<U>| #[trigger]
        runs_along(list, initial, cb, states, images) && images.len() == list.len() && state
            == states.last() && mapped == filled(base, list, images)
}

/// Whether `cb` can be called in a state for an entry.
pub open spec fn can_go_on<S, T, U, F: Fn(S, PartId, Alignment, T) -> (S, U)>(
    entry: (PartId, Alignment, T),
    state: S,
    cb: F,
) -> bool {
    call_requires(cb, (state, entry.0, entry.1, entry.2))
}

/// The first of the entries, from a position on, whose value is not the default one.
pub open spec fn first_in_use<T: DefaultValue>(entries: Seq<(PartId, T)>, from: int) -> Option<
    PartId,
>
    decreases entries.len() - from,
{
    if from < 0 || from >= entries.len() {
        None
    } else if entries[from].1 != T::spec_default() {
        Some(entries[from].0)
    } else {
        first_in_use(entries, from + 1)
    }
}

pub open spec fn max_nat(a: nat, b: nat) -> nat {
    if a >= b {
        a
    } else {
        b
    }
}

pub open spec fn min_nat(a: nat, b: nat) -> nat {
    if a <= b {
        a
    } else {
        b
    }
}

impl<'data> OutputSections<'data> {
    /// All parts of a section.
    pub open spec fn parts_of(&self, id: OutputSectionId) -> PartRange {
        PartRange {
            start: PartId(self.platform.base_part(id.0 as int) as u32),
            end: PartId(
                (self.platform.base_part(id.0 as int) + self.platform.part_count(
                    id.0 as int,
                )) as u32,
            ),
        }
    }

    /// All parts of a section.
    pub fn part_range(&self, id: OutputSectionId) -> (range: PartRange)
        requires
            self.wf(),
            self.has(id),
        ensures
            range == self.parts_of(id),
            range.start.0 == self.platform.base_part(id.0 as int),
            range.end.0 == self.platform.base_part(id.0 as int) + self.platform.part_count(
                id.0 as int,
            ),
    {
        proof {
            self.lemma_numbers_parts(id);
        }
        id.part_id_range(&self.platform)
    }

    /// A map of this output can be asked for the parts of any section.
    pub proof fn lemma_one_kind<T: DefaultValue>(
        &self,
        map: &OutputSectionPartMap<T>,
        id: OutputSectionId,
    )
        requires
            self.wf(),
            self.has(id),
            map.dense() == self.platform.built_in_part_count(),
        ensures
            map.one_kind(self.parts_of(id)),
    {
        self.lemma_numbers_parts(id);
        crate::output_section_id::lemma_parts_in_section_order(
            self.platform,
            id.0 as int,
            id.0 + 1,
        );
    }

    /// Every entry of a section's parts belongs to the section.
    pub proof fn lemma_entry_section<T: DefaultValue>(
        &self,
        map: &OutputSectionPartMap<T>,
        id: OutputSectionId,
        i: int,
    )
        requires
            self.wf(),
            self.has(id),
            map.wf(),
            map.dense() == self.platform.built_in_part_count(),
            0 <= i < map.entries_in(self.parts_of(id)).len(),
        ensures
            self.platform.section_of(map.entries_in(self.parts_of(id))[i].0.0 as int) == id.0,
    {
        self.lemma_one_kind(map, id);
        self.lemma_numbers_parts(id);
        map.lemma_entries_in(self.parts_of(id));
        crate::output_section_id::lemma_part_round_trip(
            self.platform,
            id.0 as int,
            map.entries_in(self.parts_of(id))[i].0.0 as int,
        );
    }
}

impl<T: DefaultValue> OutputSectionPartMap<T> {
    /// The exponent of the largest alignment among a section's parts that have a value, which is
    /// not less than the least alignment of the section. Parts come in the order of decreasing
    /// alignment, so the first part with a value decides.
    pub open spec fn max_exponent(&self, id: OutputSectionId, sections: &OutputSections) -> nat {
        max_nat(
            match first_in_use(self.entries_in(sections.parts_of(id)), 0) {
                Some(part) => sections.alignment_of(part),
                None => 0,
            },
            sections.info(id).min_alignment.exp(),
        )
    }

    /// The largest alignment among a section's parts that have a value, which is not less than
    /// the least alignment of the section.
    pub fn max_alignment<'data>(
        &self,
        id: OutputSectionId,
        sections: &OutputSections<'data>,
    ) -> (alignment: Alignment)
        requires
            self.wf(),
            sections.wf(),
            sections.has(id),
            self.dense() == sections.platform.built_in_part_count(),
        ensures
            alignment.exp() == self.max_exponent(id, sections),
    {
        proof {
            sections.lemma_one_kind(self, id);
        }
        let entries: Vec<(PartId, T)> = self.in_range(sections.part_range(id));
        let least: Alignment = sections.min_alignment(id);
        let mut i: usize = 0;
        while i < entries.len()
            invariant
                i <= entries@.len(),
                sections.wf(),
                entries@ == self.entries_in(sections.parts_of(id)),
                least == sections.info(id).min_alignment,
                first_in_use(entries@, 0) == first_in_use(entries@, i as int),
            decreases entries@.len() - i,
        {
            let (part_id, value) = entries[i];
            if !value.is_default() {
                return sections.part_alignment(part_id).max(least);
            }
            i = i + 1;
        }
        least
    }

    /// The exponent of the alignment that a part of a section gets: that of the part, but not
    /// more than the largest alignment that is in use.
    pub open spec fn capped_exponent(
        &self,
        part: PartId,
        id: OutputSectionId,
        sections: &OutputSections,
    ) -> nat {
        min_nat(sections.alignment_of(part), self.max_exponent(id, sections))
    }

    /// What a map holds for the parts of a section, in the order of the IDs, each with the
    /// alignment that it gets.
    pub open spec fn section_entries(
        &self,
        id: OutputSectionId,
        sections: &OutputSections,
    ) -> Seq<(PartId, Alignment, T)> {
        let entries = self.entries_in(sections.parts_of(id));
        Seq::new(
            entries.len(),
            |k: int|
                (
                    entries[k].0,
                    Alignment::of_exp(self.capped_exponent(entries[k].0, id, sections)),
                    entries[k].1,
                ),
        )
    }

    /// What a map holds for the parts of the sections that the events emit, in the order of the
    /// events.
    pub open spec fn ordered_entries(
        &self,
        events: Seq<OrderEvent>,
        sections: &OutputSections,
    ) -> Seq<(PartId, Alignment, T)>
        decreases events.len(),
    {
        if events.len() == 0 {
            Seq::empty()
        } else {
            self.ordered_entries(events.drop_last(), sections) + match events.last() {
                OrderEvent::Section(id) => self.section_entries(id, sections),
                _ => Seq::empty(),
            }
        }
    }

    /// The ordered entries are those of the emitted sections: a part is among them just where the
    /// map holds it and its section is emitted.
    pub proof fn lemma_ordered_entries(
        &self,
        events: Seq<OrderEvent>,
        sections: &OutputSections,
        part: u32,
    )
        requires
            self.wf(),
            sections.wf(),
            self.dense() == sections.platform.built_in_part_count(),
            forall|i: int|
                0 <= i < events.len() ==> (#[trigger] events[i] matches OrderEvent::Section(id)
                    ==> sections.has(id)),
        ensures
            has_part(self.ordered_entries(events, sections), part) <==> self@.contains_key(part)
                && emitted_before(
                events,
                events.len() as int,
                sections.platform.section_of(part as int),
            ),
        decreases events.len(),
    {
        let section = sections.platform.section_of(part as int);
        if events.len() > 0 {
            let front = events.drop_last();
            let count = front.len() as int;
            let before = self.ordered_entries(front, sections);
            let all = self.ordered_entries(events, sections);
            self.lemma_ordered_entries(front, sections, part);
            lemma_emitted_before(events, count, section);
            assert forall|i: int| 0 <= i < count implies #[trigger] events[i] == front[i] by {
            }
            assert(emitted_before(front, count, section) <==> emitted_before(
                events,
                count,
                section,
            )) by {
                assert(forall|i: int| 0 <= i < count ==> #[trigger] front[i] == events[i]);
            }
            match events.last() {
                OrderEvent::Section(id) => {
                    let own = self.section_entries(id, sections);
                    assert(events[count] is Section);
                    self.lemma_section_entries(id, sections, part);
                    lemma_has_part_joined(before, own, part);
                },
                _ => {
                    assert(all =~= before);
                },
            }
        }
    }

    proof fn lemma_section_entries(
        &self,
        id: OutputSectionId,
        sections: &OutputSections,
        part: u32,
    )
        requires
            self.wf(),
            sections.wf(),
            sections.has(id),
            self.dense() == sections.platform.built_in_part_count(),
        ensures
            has_part(self.section_entries(id, sections), part) <==> self@.contains_key(part)
                && sections.platform.section_of(part as int) == id.0,
    {
        let range = sections.parts_of(id);
        let entries = self.entries_in(range);
        let own = self.section_entries(id, sections);
        sections.lemma_one_kind(self, id);
        sections.lemma_numbers_parts(id);
        self.lemma_entries_in(range);
        crate::output_section_id::lemma_part_round_trip(
            sections.platform,
            id.0 as int,
            part as int,
        );
        if has_part(own, part) {
            let k = choose|k: int| 0 <= k < own.len() && (#[trigger] own[k]).0.0 == part;
            assert(entries[k].0.0 == part);
        }
        if self@.contains_key(part) && sections.platform.section_of(part as int) == id.0 {
            assert(crate::output_section_part_map::has_entry(entries, part));
            let k = choose|k: int| 0 <= k < entries.len() && (#[trigger] entries[k]).0.0 == part;
            assert(own[k].0.0 == part);
        }
    }

    /// Everything that the map holds for the sections of an output, in the order of the output:
    /// the part, its alignment and the value. The alignment is that of the part, but capped at
    /// the largest alignment of the section's parts that have a value.
    pub fn parts_in_output_order<'data>(
        &self,
        output_order: &OutputOrder<'data>,
        sections: &OutputSections<'data>,
        segments: &ProgramSegments,
    ) -> (list: Vec<(PartId, Alignment, T)>)
        requires
            self.wf(),
            sections.wf(),
            output_order.wf(sections, segments),
            self.dense() == sections.platform.built_in_part_count(),
        ensures
            list@ == self.ordered_entries(output_order.events@, sections),
    {
        let mut list: Vec<(PartId, Alignment, T)> = Vec::new();
        let mut i: usize = 0;
        while i < output_order.events.len()
            invariant
                i <= output_order.events@.len(),
                self.wf(),
                sections.wf(),
                output_order.wf(sections, segments),
                self.dense() == sections.platform.built_in_part_count(),
                list@ == self.ordered_entries(output_order.events@.take(i as int), sections),
            decreases output_order.events@.len() - i,
        {
            let event: OrderEvent<'data> = output_order.events[i];
            proof {
                let next = output_order.events@.take(i + 1);
                assert(next.drop_last() =~= output_order.events@.take(i as int));
                assert(next.last() == event);
                assert(output_order.event_wf(event, sections, segments));
            }
            match event {
                OrderEvent::Section(id) => {
                    self.append_section(id, sections, &mut list);
                },
                _ => {
                    assert(list@ =~= list@ + Seq::empty());
                },
            }
            i = i + 1;
        }
        assert(output_order.events@.take(i as int) =~= output_order.events@);
        list
    }

    fn append_section<'data>(
        &self,
        id: OutputSectionId,
        sections: &OutputSections<'data>,
        list: &mut Vec<(PartId, Alignment, T)>,
    )
        requires
            self.wf(),
            sections.wf(),
            sections.has(id),
            self.dense() == sections.platform.built_in_part_count(),
        ensures
            final(list)@ == old(list)@ + self.section_entries(id, sections),
    {
        proof {
            sections.lemma_one_kind(self, id);
        }
        let max: Alignment = self.max_alignment(id, sections);
        let entries: Vec<(PartId, T)> = self.in_range(sections.part_range(id));
        let mut k: usize = 0;
        assert(list@ =~= old(list)@ + self.section_entries(id, sections).take(0));
        while k < entries.len()
            invariant
                k <= entries@.len(),
                sections.wf(),
                max.exp() == self.max_exponent(id, sections),
                entries@ == self.entries_in(sections.parts_of(id)),
                list@ == old(list)@ + self.section_entries(id, sections).take(k as int),
            decreases entries@.len() - k,
        {
            let (part_id, value) = entries[k];
            let alignment: Alignment = sections.part_alignment(part_id).min(max);
            proof {
                alignment.lemma_of_exp();
            }
            list.push((part_id, alignment, value));
            proof {
                let own = self.section_entries(id, sections);
                assert(own[k as int] == (part_id, alignment, value));
                assert(list@ =~= old(list)@ + own.take(k + 1));
            }
            k = k + 1;
        }
        assert(self.section_entries(id, sections).take(k as int) =~= self.section_entries(
            id,
            sections,
        ));
    }

    /// Calls `cb` for everything that the map holds, in the order of the output. What it returns
    /// makes up the new map. `cb` gets the alignment of the part, but capped at the largest
    /// alignment of the section's parts that have a value. A state goes from call to call: the
    /// first call gets `initial`, and what the last one leaves is returned.
    pub fn output_order_map<
        'data,
        S,
        U: DefaultValue,
        F: Fn(S, PartId, Alignment, T) -> (S, U),
    >(
        &self,
        output_order: &OutputOrder<'data>,
        sections: &OutputSections<'data>,
        segments: &ProgramSegments,
        initial: S,
        cb: F,
    ) -> (result: (S, OutputSectionPartMap<U>))
        requires
            self.wf(),
            sections.wf(),
            output_order.wf(sections, segments),
            self.dense() == sections.platform.built_in_part_count(),
            forall|states: Seq<S>, images: Seq<U>| #[trigger]
                runs_along(
                    self.ordered_entries(output_order.events@, sections),
                    initial,
                    cb,
                    states,
                    images,
                ) && images.len() < self.ordered_entries(output_order.events@, sections).len()
                    ==> can_go_on(
                    self.ordered_entries(output_order.events@, sections)[images.len() as int],
                    states.last(),
                    cb,
                ),
        ensures
            result.1.wf(),
            result.1.dense() == self.dense(),
            maps_along(
                self.ordered_entries(output_order.events@, sections),
                initial,
                cb,
                dense_defaults(self.dense()),
                result.0,
                result.1@,
            ),
            forall|part: u32| #[trigger]
                result.1@.contains_key(part) <==> part < self.dense() || (self@.contains_key(part)
                    && emitted_before(
                    output_order.events@,
                    output_order.events@.len() as int,
                    sections.platform.section_of(part as int),
                )),
            forall|part: u32|
                #![trigger result.1.value(part)]
                !(self@.contains_key(part) && emitted_before(
                    output_order.events@,
                    output_order.events@.len() as int,
                    sections.platform.section_of(part as int),
                )) ==> result.1.value(part) == U::spec_default(),
    {
        let list: Vec<(PartId, Alignment, T)> = self.parts_in_output_order(
            output_order,
            sections,
            segments,
        );
        let mut mapped: OutputSectionPartMap<U> = OutputSectionPartMap::with_dense_size(
            self.dense_len(),
        );
        let ghost mut states: Seq<S> = seq![initial];
        let ghost mut images: Seq<U> = Seq::empty();
        let mut state: S = initial;
        let mut k: usize = 0;
        assert(mapped@ =~= dense_defaults::<U>(self.dense()));
        while k < list.len()
            invariant
                k <= list@.len(),
                mapped.wf(),
                mapped.dense() == self.dense(),
                images.len() == k,
                state == states.last(),
                runs_along(list@, initial, cb, states, images),
                mapped@ == filled(dense_defaults(self.dense()), list@, images),
                forall|states: Seq<S>, images: Seq<U>| #[trigger]
                    runs_along(list@, initial, cb, states, images) && images.len() < list@.len()
                        ==> can_go_on(list@[images.len() as int], states.last(), cb),
            decreases list@.len() - k,
        {
            let (part_id, alignment, value) = list[k];
            assert(can_go_on(list@[k as int], states.last(), cb));
            let (next, image) = cb(state, part_id, alignment, value);
            mapped.set(part_id, image);
            proof {
                let longer = states.push(next);
                let more = images.push(image);
                assert forall|j: int| 0 <= j < more.len() implies call_ensures(
                    cb,
                    (longer[j], list@[j].0, list@[j].1, list@[j].2),
                    (longer[j + 1], #[trigger] more[j]),
                ) by {
                    if j < k {
                        assert(more[j] == images[j]);
                    }
                }
                assert(more.drop_last() =~= images);
                states = longer;
                images = more;
            }
            state = next;
            k = k + 1;
        }
        proof {
            assert forall|i: int| 0 <= i < output_order.events@.len() implies (
            #[trigger] output_order.events@[i] matches OrderEvent::Section(id) ==> sections.has(
                id,
            )) by {
                assert(output_order.event_wf(output_order.events@[i], sections, segments));
            }
            assert forall|part: u32| #[trigger]
                mapped@.contains_key(part) <==> part < self.dense() || (self@.contains_key(part)
                    && emitted_before(
                    output_order.events@,
                    output_order.events@.len() as int,
                    sections.platform.section_of(part as int),
                )) by {
                self.lemma_ordered_entries(output_order.events@, sections, part);
                lemma_filled(dense_defaults(self.dense()), list@, images, part);
                assert(list@.take(images.len() as int) =~= list@);
            }
            assert forall|part: u32|
                #![trigger mapped.value(part)]
                !(self@.contains_key(part) && emitted_before(
                    output_order.events@,
                    output_order.events@.len() as int,
                    sections.platform.section_of(part as int),
                )) implies mapped.value(part) == U::spec_default() by {
                self.lemma_ordered_entries(output_order.events@, sections, part);
                lemma_filled(dense_defaults(self.dense()), list@, images, part);
                assert(list@.take(images.len() as int) =~= list@);
            }
        }
        (state, mapped)
    }
}

} // verus!
