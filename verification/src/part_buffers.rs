//! The contents of the parts of the output, which are handed out piece by piece.
use crate::output_section_id::PartId;
use crate::output_section_part_map::OutputSectionPartMap;
use vstd::prelude::*;

verus! {

impl OutputSectionPartMap<Vec<u8>> {
    /// The bytes of a part. A part without a value has none.
    pub open spec fn bytes(&self, id: u32) -> Seq<u8> {
        if self@.contains_key(id) {
            self@[id]@
        } else {
            Seq::empty()
        }
    }

    /// The bytes of a part.
    pub fn part_bytes(&mut self, part_id: PartId) -> (bytes: &mut Vec<u8>)
        requires
            old(self).wf(),
        ensures
            bytes@ == old(self).bytes(part_id.0),
            final(self).wf(),
            final(self).dense() == old(self).dense(),
            final(self)@ == old(self)@.insert(part_id.0, *final(bytes)),
    {
        self.get_or_insert(part_id, Vec::new())
    }

    fn split_part(&mut self, part_id: PartId, size: u64) -> (taken: Vec<u8>)
        requires
            old(self).wf(),
            size <= old(self).bytes(part_id.0).len(),
        ensures
            taken@ == old(self).bytes(part_id.0).take(size as int),
            final(self).wf(),
            final(self).dense() == old(self).dense(),
            final(self)@.dom() == old(self)@.dom().insert(part_id.0),
            final(self)@[part_id.0]@ == old(self).bytes(part_id.0).skip(size as int),
            forall|id: u32|
                #![trigger final(self)@[id]]
                id != part_id.0 && old(self)@.contains_key(id) ==> final(self)@[id] == old(
                    self,
                )@[id],
    {
        let bytes: &mut Vec<u8> = self.part_bytes(part_id);
        let ghost before = bytes@;
        let length: usize = bytes.len();
        assert(size <= length);
        let mut taken: Vec<u8> = Vec::new();
        std::mem::swap(&mut taken, bytes);
        let rest: Vec<u8> = taken.split_off(size as usize);
        *bytes = rest;
        assert(taken@ =~= before.take(size as int));
        assert(rest@ =~= before.skip(size as int));
        taken
    }

    /// Takes the first bytes of every part that `sizes` has a value for, as many as it says. The
    /// rest stays.
    pub fn take_mut(&mut self, sizes: &OutputSectionPartMap<u64>) -> (taken: OutputSectionPartMap<
        Vec<u8>,
    >)
        requires
            old(self).wf(),
            sizes.wf(),
            old(self).dense() == sizes.dense(),
            forall|id: u32| #[trigger]
                sizes@.contains_key(id) ==> sizes@[id] <= old(self).bytes(id).len(),
        ensures
            final(self).wf(),
            final(self).dense() == old(self).dense(),
            final(self)@.dom() == old(self)@.dom().union(sizes@.dom()),
            taken.wf(),
            taken.dense() == sizes.dense(),
            taken@.dom() == sizes@.dom(),
            forall|id: u32| #[trigger]
                sizes@.contains_key(id) ==> taken@[id]@ == old(self).bytes(id).take(
                    sizes@[id] as int,
                ) && final(self)@[id]@ == old(self).bytes(id).skip(sizes@[id] as int),
            forall|id: u32|
                #![trigger final(self)@[id]]
                old(self)@.contains_key(id) && !sizes@.contains_key(id) ==> final(self)@[id] == old(
                    self,
                )@[id],
    {
        let ghost before = *self;
        let entries: Vec<(PartId, u64)> = sizes.iter();
        proof {
            sizes.lemma_dense_bound();
        }
        let mut taken: OutputSectionPartMap<Vec<u8>> = no_bytes(sizes.dense_len());
        let mut i: usize = 0;
        while i < entries.len()
            invariant
                i <= entries@.len(),
                before == *old(self),
                before.wf(),
                self.wf(),
                sizes.wf(),
                taken.wf(),
                self.dense() == before.dense() == sizes.dense() == taken.dense(),
                crate::output_section_part_map::lists(entries@, sizes@, 0, u32::MAX + 1),
                forall|id: u32| #[trigger]
                    sizes@.contains_key(id) ==> sizes@[id] <= before.bytes(id).len(),
                forall|id: u32|
                    #![trigger self@.contains_key(id)]
                    self@.contains_key(id) <==> before@.contains_key(id) || seen(
                        entries@,
                        id,
                        i as int,
                    ),
                forall|id: u32|
                    #![trigger taken@.contains_key(id)]
                    taken@.contains_key(id) <==> id < sizes.dense() || seen(entries@, id, i as int),
                forall|id: u32|
                    #![trigger self@[id]]
                    before@.contains_key(id) && !seen(entries@, id, i as int) ==> self@[id]
                        == before@[id],
                forall|id: u32|
                    #![trigger seen(entries@, id, i as int)]
                    seen(entries@, id, i as int) ==> taken@[id]@ == before.bytes(id).take(
                        sizes@[id] as int,
                    ) && self@[id]@ == before.bytes(id).skip(sizes@[id] as int),
            decreases entries@.len() - i,
        {
            let (part_id, size) = entries[i];
            let ghost previous = *self;
            let ghost previous_taken = taken@;
            proof {
                assert(sizes@.contains_key(part_id.0) && sizes@[part_id.0] == size);
                assert(!seen(entries@, part_id.0, i as int)) by {
                    if seen(entries@, part_id.0, i as int) {
                        let k = choose|k: int|
                            0 <= k < i && (#[trigger] entries@[k]).0.0 == part_id.0;
                        assert(entries@[k].0.0 < entries@[i as int].0.0);
                    }
                }
                assert(self.bytes(part_id.0) == before.bytes(part_id.0)) by {
                    assert(self@.contains_key(part_id.0) == before@.contains_key(part_id.0));
                    if before@.contains_key(part_id.0) {
                        assert(self@[part_id.0] == before@[part_id.0]);
                    }
                }
            }
            let bytes: Vec<u8> = self.split_part(part_id, size);
            *taken.part_bytes(part_id) = bytes;
            proof {
                assert forall|id: u32| #[trigger] seen(entries@, id, i + 1) == (seen(
                    entries@,
                    id,
                    i as int,
                ) || id == part_id.0) by {
                    if seen(entries@, id, i as int) {
                        let k = choose|k: int| 0 <= k < i && (#[trigger] entries@[k]).0.0 == id;
                        assert(0 <= k < i + 1 && entries@[k].0.0 == id);
                    }
                    if id == part_id.0 {
                        assert(entries@[i as int].0.0 == id);
                    }
                }
            }
            i = i + 1;
        }
        proof {
            assert forall|id: u32| #[trigger] seen(entries@, id, i as int)
                == sizes@.contains_key(id) by {
                if sizes@.contains_key(id) {
                    assert(crate::output_section_part_map::has_entry(entries@, id));
                    let k = choose|k: int|
                        0 <= k < entries@.len() && (#[trigger] entries@[k]).0.0 == id;
                    assert(0 <= k < i && entries@[k].0.0 == id);
                }
            }
            assert forall|id: u32| id < sizes.dense() implies #[trigger] sizes@.contains_key(id) by {
                sizes.lemma_dense_present(id);
            }
            assert forall|id: u32| #[trigger] sizes@.contains_key(id) implies seen(
                entries@,
                id,
                i as int,
            ) by {
                assert(seen(entries@, id, i as int) == sizes@.contains_key(id));
            }
            assert(taken@.dom() =~= sizes@.dom());
            assert(self@.dom() =~= before@.dom().union(sizes@.dom()));
        }
        taken
    }
}

/// Whether one of the first `count` entries is for a part.
spec fn seen(entries: Seq<(PartId, u64)>, id: u32, count: int) -> bool {
    exists|k: int| 0 <= k < count && (#[trigger] entries[k]).0.0 == id
}

fn no_bytes(count: usize) -> (map: OutputSectionPartMap<Vec<u8>>)
    requires
        count <= u32::MAX,
    ensures
        map.wf(),
        map.dense() == count,
        forall|id: u32| #[trigger] map@.contains_key(id) <==> id < count,
{
    let mut parts: Vec<Vec<u8>> = Vec::new();
    while parts.len() < count
        invariant
            parts@.len() <= count,
        decreases count - parts@.len(),
    {
        parts.push(Vec::new());
    }
    OutputSectionPartMap::of_parts(parts)
}

} // verus!
