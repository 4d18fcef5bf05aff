//! Sections that a linker script places twice, with `ONLY_IF_RO` and with `ONLY_IF_RW`.
use crate::hash_maps::IdMap;
use crate::output_section_id::OutputSectionId;
use crate::output_sections::{
    OnlyIf, OnlyIfPlacement, OnlyIfSlots, OutputSections, SectionLocationInfo, SectionOutputInfo,
};
use vstd::prelude::*;

verus! {

/// What is known of a section once one of its placements has been chosen.
pub open spec fn placed<'data>(
    info: SectionOutputInfo<'data>,
    placement: OnlyIfPlacement<'data>,
) -> SectionOutputInfo<'data> {
    SectionOutputInfo {
        location_info: Some(placement.location_info),
        phdrs: if placement.phdrs@.len() > 0 {
            placement.phdrs
        } else {
            info.phdrs
        },
        ..info
    }
}

impl<'data> OutputSections<'data> {
    /// Whether a section has placements to choose from.
    pub open spec fn has_slots(&self, id: OutputSectionId) -> bool {
        self.only_if_positions@.contains_key(id.0 as u64)
    }

    /// The placements that a section has to choose from.
    pub open spec fn slots(&self, id: OutputSectionId) -> OnlyIfSlots<'data> {
        self.only_if_slots@[self.only_if_positions@[id.0 as u64] as int]
    }

    /// The placements of a section after the choice: the `ONLY_IF_RW` copy is used if an input
    /// is writable and there is such a copy.
    pub open spec fn decided(
        slots: OnlyIfSlots<'data>,
        writable: bool,
    ) -> OnlyIfSlots<'data> {
        OnlyIfSlots { prefer_rw: writable && slots.rw is Some, ..slots }
    }

    /// What is known of a section after the choice.
    pub open spec fn info_after_choice(
        &self,
        id: OutputSectionId,
        writable: bool,
    ) -> SectionOutputInfo<'data> {
        match OutputSections::decided(self.slots(id), writable).choice() {
            Some(placement) => placed(self.info(id), placement),
            None => self.info(id),
        }
    }

    /// Everything but what is known of single sections, and their placements.
    pub open spec fn same_besides_placements(&self, other: &OutputSections<'data>) -> bool {
        &&& self.platform == other.platform
        &&& self.base_address == other.base_address
        &&& self.output_section_indexes@ == other.output_section_indexes@
        &&& self.custom_by_identity@ == other.custom_by_identity@
        &&& self.init_fini_by_priority@ == other.init_fini_by_priority@
        &&& self.rosegment == other.rosegment
        &&& self.output_kind == other.output_kind
        &&& self.gnu_build_id_placement == other.gnu_build_id_placement
        &&& self.gnu_build_id_allocated == other.gnu_build_id_allocated
    }

    /// Records one of the placements of a section.
    pub fn record_only_if(
        &mut self,
        id: OutputSectionId,
        only_if: OnlyIf,
        order_index: usize,
        location_info: SectionLocationInfo<'data>,
        phdrs: &'data [&'data [u8]],
    )
        requires
            old(self).wf(),
            old(self).has(id),
        ensures
            final(self).wf(),
            final(self).same_besides_placements(old(self)),
            final(self).infos() == old(self).infos(),
            final(self).has_slots(id),
            forall|other: OutputSectionId|
                #![trigger final(self).has_slots(other)]
                other != id ==> final(self).has_slots(other) == old(self).has_slots(other),
            forall|other: OutputSectionId|
                #![trigger final(self).slots(other)]
                other != id && old(self).has_slots(other) ==> final(self).slots(other) == old(
                    self,
                ).slots(other),
            ({
                let placement = OnlyIfPlacement { order_index, location_info, phdrs };
                let now = final(self).slots(id);
                let before = if old(self).has_slots(id) {
                    old(self).slots(id)
                } else {
                    OnlyIfSlots { ro: None, rw: None, prefer_rw: false }
                };
                now == (match only_if {
                    OnlyIf::Ro => OnlyIfSlots { ro: Some(placement), ..before },
                    OnlyIf::Rw => OnlyIfSlots { rw: Some(placement), ..before },
                })
            }),
    {
        let placement: OnlyIfPlacement<'data> = OnlyIfPlacement {
            order_index,
            location_info,
            phdrs,
        };
        match self.only_if_positions.get(id.0 as u64) {
            Some(position) => {
                assert(self.has_slots(id));
                assert(position < self.only_if_slots.len());
                let mut slots: OnlyIfSlots<'data> = self.only_if_slots[position as usize];
                slots.set_slot(only_if, placement);
                self.only_if_slots.set(position as usize, slots);
                proof {
                    assert forall|other: OutputSectionId|
                        #![trigger self.slots(other)]
                        other != id && old(self).has_slots(other) implies self.slots(other) == old(
                        self,
                    ).slots(other) by {
                        assert(self.only_if_positions@.contains_key(other.0 as u64));
                        assert(self.only_if_positions@.contains_key(id.0 as u64));
                    }
                }
            },
            None => {
                let mut slots: OnlyIfSlots<'data> = OnlyIfSlots::empty();
                slots.set_slot(only_if, placement);
                let position: u64 = self.only_if_slots.len() as u64;
                self.only_if_slots.push(slots);
                self.only_if_positions.insert(id.0 as u64, position);
            },
        }
    }

    /// Decides between the placements of each section that has two. If any matching input is
    /// writable, the `ONLY_IF_RW` copy is used for every matching input, otherwise the
    /// `ONLY_IF_RO` copy.
    pub fn apply_only_if_choice(&mut self, writable_sections: &IdMap)
        requires
            old(self).wf(),
        ensures
            final(self).wf(),
            final(self).same_besides_placements(old(self)),
            final(self).count() == old(self).count(),
            final(self).only_if_positions@ == old(self).only_if_positions@,
            forall|id: OutputSectionId|
                #![trigger final(self).slots(id)]
                old(self).has_slots(id) ==> final(self).slots(id) == OutputSections::decided(
                    old(self).slots(id),
                    writable_sections@.contains_key(id.0 as u64),
                ),
            forall|id: OutputSectionId|
                #![trigger final(self).info(id)]
                old(self).has(id) ==> final(self).info(id) == (if old(self).has_slots(id) {
                    old(self).info_after_choice(id, writable_sections@.contains_key(id.0 as u64))
                } else {
                    old(self).info(id)
                }),
    {
        let ids: Vec<u64> = self.only_if_positions.keys();
        let ghost before = *self;
        let mut i: usize = 0;
        while i < ids.len()
            invariant
                i <= ids@.len(),
                ids@.no_duplicates(),
                ids@.to_set() == before.only_if_positions@.dom(),
                before.wf(),
                self.wf(),
                self.count() == before.count(),
                self.same_besides_placements(&before),
                self.only_if_positions@ == before.only_if_positions@,
                self.only_if_slots@.len() == before.only_if_slots@.len(),
                forall|id: OutputSectionId|
                    #![trigger self.slots(id)]
                    before.has_slots(id) ==> self.slots(id) == (if ids@.take(i as int).contains(
                        id.0 as u64,
                    ) {
                        OutputSections::decided(
                            before.slots(id),
                            writable_sections@.contains_key(id.0 as u64),
                        )
                    } else {
                        before.slots(id)
                    }),
                forall|id: OutputSectionId|
                    #![trigger self.info(id)]
                    before.has(id) ==> self.info(id) == (if ids@.take(i as int).contains(
                        id.0 as u64,
                    ) {
                        before.info_after_choice(id, writable_sections@.contains_key(id.0 as u64))
                    } else {
                        before.info(id)
                    }),
            decreases ids@.len() - i,
        {
            proof {
                assert(ids@.to_set().contains(ids@[i as int]));
                assert(before.only_if_positions@.contains_key(ids@[i as int]));
            }
            let id: OutputSectionId = OutputSectionId(ids[i] as u32);
            let ghost previous = *self;
            proof {
                assert(!ids@.take(i as int).contains(id.0 as u64)) by {
                    if ids@.take(i as int).contains(id.0 as u64) {
                        let k = choose|k: int|
                            0 <= k < i && ids@.take(i as int)[k] == id.0 as u64;
                        assert(ids@[k] == ids@[i as int]);
                    }
                }
                assert(self.slots(id) == before.slots(id));
                assert(self.info(id) == before.info(id));
            }
            self.choose_placement(id, writable_sections.contains_key(id.0 as u64));
            proof {
                let now = ids@.take(i as int);
                let next = ids@.take(i + 1);
                assert forall|key: u64| next.contains(key) == (now.contains(key) || key
                    == id.0) by {
                    if now.contains(key) {
                        let k = choose|k: int| 0 <= k < now.len() && now[k] == key;
                        assert(next[k] == key);
                    }
                    if key == id.0 {
                        assert(next[i as int] == key);
                    }
                    if next.contains(key) && key != id.0 {
                        let k = choose|k: int| 0 <= k < next.len() && next[k] == key;
                        assert(now[k] == key);
                    }
                }
                assert forall|other: OutputSectionId|
                    #![trigger self.slots(other)]
                    before.has_slots(other) implies self.slots(other) == (if next.contains(
                    other.0 as u64,
                ) {
                    OutputSections::decided(
                        before.slots(other),
                        writable_sections@.contains_key(other.0 as u64),
                    )
                } else {
                    before.slots(other)
                }) by {
                    assert(previous.slots(other) == previous.slots(other));
                    if other != id {
                        assert(self.slots(other) == previous.slots(other));
                    }
                }
                assert forall|other: OutputSectionId|
                    #![trigger self.info(other)]
                    before.has(other) implies self.info(other) == (if next.contains(
                    other.0 as u64,
                ) {
                    before.info_after_choice(other, writable_sections@.contains_key(other.0 as u64))
                } else {
                    before.info(other)
                }) by {
                    assert(previous.info(other) == previous.info(other));
                    if other != id {
                        assert(self.info(other) == previous.info(other));
                    }
                }
            }
            i = i + 1;
        }
        proof {
            assert(ids@.take(i as int) =~= ids@);
            assert forall|id: OutputSectionId|
                #![trigger self.has_slots(id)]
                ids@.contains(id.0 as u64) == before.has_slots(id) by {
                assert(ids@.to_set().contains(id.0 as u64) == ids@.contains(id.0 as u64));
            }
            assert forall|id: OutputSectionId|
                #![trigger self.info(id)]
                before.has(id) implies self.info(id) == (if before.has_slots(id) {
                before.info_after_choice(id, writable_sections@.contains_key(id.0 as u64))
            } else {
                before.info(id)
            }) by {
                assert(self.has_slots(id) == before.has_slots(id));
            }
            assert forall|id: OutputSectionId|
                #![trigger self.slots(id)]
                before.has_slots(id) implies self.slots(id) == OutputSections::decided(
                before.slots(id),
                writable_sections@.contains_key(id.0 as u64),
            ) by {
                assert(self.has_slots(id) == before.has_slots(id));
            }
        }
    }

    fn choose_placement(&mut self, id: OutputSectionId, writable: bool)
        requires
            old(self).wf(),
            old(self).has_slots(id),
        ensures
            final(self).wf(),
            final(self).count() == old(self).count(),
            final(self).same_besides_placements(old(self)),
            final(self).only_if_positions@ == old(self).only_if_positions@,
            final(self).only_if_slots@.len() == old(self).only_if_slots@.len(),
            final(self).slots(id) == OutputSections::decided(old(self).slots(id), writable),
            final(self).info(id) == old(self).info_after_choice(id, writable),
            forall|other: OutputSectionId|
                #![trigger final(self).slots(other)]
                other != id && old(self).has_slots(other) ==> final(self).slots(other) == old(
                    self,
                ).slots(other),
            forall|other: OutputSectionId|
                #![trigger final(self).info(other)]
                other != id && old(self).has(other) ==> final(self).info(other) == old(self).info(
                    other,
                ),
    {
        let position: u64 = match self.only_if_positions.get(id.0 as u64) {
            Some(position) => position,
            None => 0,
        };
        assert(self.only_if_positions@.contains_key(id.0 as u64));
        assert(position < self.only_if_slots.len());
        let mut slots: OnlyIfSlots<'data> = self.only_if_slots[position as usize];
        slots.prefer_rw = writable && slots.rw.is_some();
        self.only_if_slots.set(position as usize, slots);
        proof {
            assert forall|other: OutputSectionId|
                #![trigger self.slots(other)]
                other != id && old(self).has_slots(other) implies self.slots(other) == old(
                self,
            ).slots(other) by {
                assert(self.only_if_positions@.contains_key(other.0 as u64));
            }
        }
        match slots.chosen() {
            Some(placement) => {
                let mut info: SectionOutputInfo<'data> = self.output_info(id);
                info.location_info = Some(placement.location_info);
                if placement.phdrs.len() > 0 {
                    info.phdrs = placement.phdrs;
                }
                self.section_infos.set(id, info);
                proof {
                    self.lemma_wf_after_update(old(self), id);
                }
            },
            None => {},
        }
    }

    /// Whether a section is emitted where the linker script lists it at the given position.
    /// A section with two placements is emitted at the chosen one.
    pub fn should_emit_only_if_order_slot(
        &self,
        id: OutputSectionId,
        order_index: usize,
    ) -> (emit: bool)
        requires
            self.wf(),
        ensures
            emit == (self.has_slots(id) ==> (self.slots(id).choice() matches Some(placement)
                ==> placement.order_index == order_index)),
    {
        match self.only_if_positions.get(id.0 as u64) {
            None => true,
            Some(position) => {
                assert(self.has_slots(id));
                assert(position < self.only_if_slots.len());
                match self.only_if_slots[position as usize].chosen() {
                    None => true,
                    Some(placement) => placement.order_index == order_index,
                }
            },
        }
    }
}

} // verus!
