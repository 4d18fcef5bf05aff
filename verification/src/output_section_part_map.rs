//! A value for each part of each output section.
use crate::output_section_id::{PartId, PartRange};
use crate::output_section_map::DefaultValue;
use crate::sparse_parts;
use std::collections::BTreeMap;
use vstd::prelude::*;

verus! {

/// Types whose values are added up part by part.
pub trait Additive: DefaultValue {
    spec fn amount(self) -> nat;

    spec fn limit() -> nat;

    /// The sum of two values.
    fn plus(self, other: Self) -> (sum: Self)
        requires
            self.amount() + other.amount() <= Self::limit(),
        ensures
            sum.amount() == self.amount() + other.amount(),
    ;

    proof fn default_amount()
        ensures
            Self::spec_default().amount() == 0,
            0 <= Self::limit(),
    ;

    proof fn amount_determines(a: Self, b: Self)
        requires
            a.amount() == b.amount(),
        ensures
            a == b,
    ;
}

impl Additive for u64 {
    open spec fn amount(self) -> nat {
        self as nat
    }

    open spec fn limit() -> nat {
        u64::MAX as nat
    }

    fn plus(self, other: u64) -> (sum: u64) {
        self + other
    }

    proof fn default_amount() {
    }

    proof fn amount_determines(a: u64, b: u64) {
    }
}

impl Additive for u32 {
    open spec fn amount(self) -> nat {
        self as nat
    }

    open spec fn limit() -> nat {
        u32::MAX as nat
    }

    fn plus(self, other: u32) -> (sum: u32) {
        self + other
    }

    proof fn default_amount() {
    }

    proof fn amount_determines(a: u32, b: u32) {
    }
}

/// A map from each part of each output section to some value. The parts of a platform's own
/// sections always have a value. Other parts have one once it has been asked for.
#[derive(Debug)]
pub struct OutputSectionPartMap<T> {
    parts: Vec<T>,
    sparse: BTreeMap<u32, T>,
}

/// Whether `entries` is in the order of the part IDs and has no ID twice.
pub open spec fn sorted_by_id<T>(entries: Seq<(PartId, T)>) -> bool {
    forall|i: int, j: int| 0 <= i < j < entries.len() ==> entries[i].0.0 < entries[j].0.0
}

/// Whether one of the entries is for the given part.
pub open spec fn has_entry<T>(entries: Seq<(PartId, T)>, id: u32) -> bool {
    exists|i: int| 0 <= i < entries.len() && (#[trigger] entries[i]).0.0 == id
}

/// Whether `entries` lists, in the order of the IDs, what `map` holds for the parts from `start`
/// up to and without `end`.
pub open spec fn lists<T>(
    entries: Seq<(PartId, T)>,
    map: Map<u32, T>,
    start: int,
    end: int,
) -> bool {
    &&& sorted_by_id(entries)
    &&& forall|i: int|
        0 <= i < entries.len() ==> start <= (#[trigger] entries[i]).0.0 < end
            && map.contains_key(entries[i].0.0) && map[entries[i].0.0] == entries[i].1
    &&& forall|id: u32|
        start <= id < end && #[trigger] map.contains_key(id) ==> has_entry(entries, id)
}

/// Two lists of the same parts of the same map are the same.
pub proof fn lemma_lists_unique<T>(
    a: Seq<(PartId, T)>,
    b: Seq<(PartId, T)>,
    map: Map<u32, T>,
    start: int,
    end: int,
)
    requires
        lists(a, map, start, end),
        lists(b, map, start, end),
    ensures
        a == b,
    decreases a.len(),
{
    if a.len() == 0 {
        if b.len() > 0 {
            assert(map.contains_key(b[0].0.0));
            assert(has_entry(a, b[0].0.0));
        }
        assert(a == b);
    } else {
        let last = a.last();
        assert(map.contains_key(last.0.0));
        assert(has_entry(b, last.0.0));
        let j = choose|j: int| 0 <= j < b.len() && (#[trigger] b[j]).0.0 == last.0.0;
        let b_last = b.last();
        assert(map.contains_key(b_last.0.0));
        assert(has_entry(a, b_last.0.0));
        let i = choose|i: int| 0 <= i < a.len() && (#[trigger] a[i]).0.0 == b_last.0.0;
        if j < b.len() - 1 {
            assert(b[j].0.0 < b[b.len() - 1].0.0);
            if i < a.len() - 1 {
                assert(a[i].0.0 < a[a.len() - 1].0.0);
            }
        }
        assert(last.0 == b_last.0);
        let cut = last.0.0 as int;
        assert forall|id: u32| start <= id < cut && #[trigger] map.contains_key(id) implies has_entry(
            a.drop_last(),
            id,
        ) by {
            assert(has_entry(a, id));
            let k = choose|k: int| 0 <= k < a.len() && (#[trigger] a[k]).0.0 == id;
            assert(a.drop_last()[k] == a[k]);
        }
        assert forall|id: u32| start <= id < cut && #[trigger] map.contains_key(id) implies has_entry(
            b.drop_last(),
            id,
        ) by {
            assert(has_entry(b, id));
            let k = choose|k: int| 0 <= k < b.len() && (#[trigger] b[k]).0.0 == id;
            assert(b.drop_last()[k] == b[k]);
        }
        assert(lists(a.drop_last(), map, start, cut)) by {
            assert forall|i: int| 0 <= i < a.drop_last().len() implies start <= (
            #[trigger] a.drop_last()[i]).0.0 < cut && map.contains_key(a.drop_last()[i].0.0)
                && map[a.drop_last()[i].0.0] == a.drop_last()[i].1 by {
                assert(a.drop_last()[i] == a[i]);
                assert(a[i].0.0 < a[a.len() - 1].0.0);
            }
        }
        assert(lists(b.drop_last(), map, start, cut)) by {
            assert forall|i: int| 0 <= i < b.drop_last().len() implies start <= (
            #[trigger] b.drop_last()[i]).0.0 < cut && map.contains_key(b.drop_last()[i].0.0)
                && map[b.drop_last()[i].0.0] == b.drop_last()[i].1 by {
                assert(b.drop_last()[i] == b[i]);
                assert(b[i].0.0 < b[b.len() - 1].0.0);
            }
        }
        lemma_lists_unique(a.drop_last(), b.drop_last(), map, start, cut);
        assert(a == a.drop_last().push(last));
        assert(b == b.drop_last().push(b_last));
    }
}

impl<T> View for OutputSectionPartMap<T> {
    type V = Map<u32, T>;

    /// The values of the parts that have one.
    closed spec fn view(&self) -> Map<u32, T> {
        part_values(self.parts@, self.sparse@)
    }
}

spec fn part_values<T>(parts: Seq<T>, sparse: Map<u32, T>) -> Map<u32, T> {
    Map::new(
        |id: u32| id < parts.len() || sparse.contains_key(id),
        |id: u32|
            if id < parts.len() {
                parts[id as int]
            } else {
                sparse[id]
            },
    )
}

/// What a map holds for the parts from `start` up to and without `end`, in the order of the IDs.
pub open spec fn listed<T>(map: Map<u32, T>, start: int, end: int) -> Seq<(PartId, T)>
    decreases end - start,
{
    if end <= start {
        Seq::empty()
    } else {
        let before = listed(map, start, end - 1);
        if map.contains_key((end - 1) as u32) {
            before.push((PartId((end - 1) as u32), map[(end - 1) as u32]))
        } else {
            before
        }
    }
}

/// `listed` lists what a map holds.
pub proof fn lemma_listed<T>(map: Map<u32, T>, start: int, end: int)
    requires
        0 <= start <= end <= u32::MAX + 1,
    ensures
        lists(listed(map, start, end), map, start, end),
    decreases end - start,
{
    if start < end {
        lemma_listed(map, start, end - 1);
        let before = listed(map, start, end - 1);
        let all = listed(map, start, end);
        assert forall|id: u32| start <= id < end && #[trigger] map.contains_key(id) implies has_entry(
            all,
            id,
        ) by {
            if id == end - 1 {
                assert(all[all.len() - 1].0.0 == id);
            } else {
                assert(has_entry(before, id));
                let k = choose|k: int| 0 <= k < before.len() && (#[trigger] before[k]).0.0 == id;
                assert(all[k] == before[k]);
            }
        }
    }
}

impl<T> OutputSectionPartMap<T> {
    pub closed spec fn wf(&self) -> bool {
        &&& self.parts@.len() <= u32::MAX
        &&& forall|id: u32| #[trigger] self.sparse@.contains_key(id) ==> self.parts@.len() <= id
    }

    /// The number of parts that always have a value: those below it.
    pub closed spec fn dense(&self) -> nat {
        self.parts@.len()
    }

    /// There are no more parts than IDs.
    pub proof fn lemma_dense_bound(&self)
        requires
            self.wf(),
        ensures
            self.dense() <= u32::MAX,
    {
    }

    /// Parts below `dense` have a value.
    pub proof fn lemma_dense_present(&self, id: u32)
        requires
            id < self.dense(),
        ensures
            self@.contains_key(id),
    {
    }

    /// The number of parts that always have a value: those below it.
    pub fn dense_len(&self) -> (count: usize)
        ensures
            count == self.dense(),
    {
        self.parts.len()
    }

    /// A map without any values.
    pub fn empty() -> (map: OutputSectionPartMap<T>)
        ensures
            map.wf(),
            map.dense() == 0,
            map@ == Map::<u32, T>::empty(),
    {
        let map: OutputSectionPartMap<T> = OutputSectionPartMap {
            parts: Vec::new(),
            sparse: BTreeMap::new(),
        };
        assert(map@ =~= Map::<u32, T>::empty());
        map
    }

    /// A map with a value for each of the first parts.
    pub fn of_parts(parts: Vec<T>) -> (map: OutputSectionPartMap<T>)
        requires
            parts@.len() <= u32::MAX,
        ensures
            map.wf(),
            map.dense() == parts@.len(),
            map@ == Map::new(
                |id: u32| id < parts@.len(),
                |id: u32| parts@[id as int],
            ),
    {
        let map: OutputSectionPartMap<T> = OutputSectionPartMap { parts, sparse: BTreeMap::new() };
        assert(map@ =~= Map::new(|id: u32| id < parts@.len(), |id: u32| parts@[id as int]));
        map
    }

    /// The value of a part, for update. A part that has none gets the given one.
    pub fn get_or_insert(&mut self, part_id: PartId, initial: T) -> (value: &mut T)
        requires
            old(self).wf(),
        ensures
            *value == (if old(self)@.contains_key(part_id.0) {
                old(self)@[part_id.0]
            } else {
                initial
            }),
            final(self).wf(),
            final(self).dense() == old(self).dense(),
            final(self)@ == old(self)@.insert(part_id.0, *final(value)),
    {
        let ghost parts = self.parts@;
        let ghost sparse = self.sparse@;
        if (part_id.0 as usize) < self.parts.len() {
            proof {
                assert forall|value: T| part_values(
                    parts.update(part_id.0 as int, value),
                    sparse,
                ) == #[trigger] self@.insert(part_id.0, value) by {
                    assert(part_values(parts.update(part_id.0 as int, value), sparse)
                        =~= self@.insert(part_id.0, value));
                }
            }
            &mut self.parts[part_id.0 as usize]
        } else {
            proof {
                assert forall|value: T| part_values(parts, sparse.insert(part_id.0, value))
                    == #[trigger] self@.insert(part_id.0, value) by {
                    assert(part_values(parts, sparse.insert(part_id.0, value)) =~= self@.insert(
                        part_id.0,
                        value,
                    ));
                }
            }
            sparse_parts::get_or_insert(&mut self.sparse, part_id.0, initial)
        }
    }
}

impl<T: DefaultValue> OutputSectionPartMap<T> {
    /// The value of a part, which is the default value if it has none.
    pub open spec fn value(&self, id: u32) -> T {
        if self@.contains_key(id) {
            self@[id]
        } else {
            T::spec_default()
        }
    }

    /// What the map holds for the parts of a range, in the order of the IDs.
    pub open spec fn entries_in(&self, range: PartRange) -> Seq<(PartId, T)> {
        listed(self@, range.start.0 as int, range.end.0 as int)
    }

    /// Whether a range is one that `in_range` can be asked for.
    pub open spec fn one_kind(&self, range: PartRange) -> bool {
        &&& range.start.0 <= range.end.0
        &&& range.end.0 <= self.dense() || self.dense() <= range.start.0
    }

    /// `entries_in` lists what the map holds for the range.
    pub proof fn lemma_entries_in(&self, range: PartRange)
        requires
            self.wf(),
            self.one_kind(range),
        ensures
            lists(self.entries_in(range), self@, range.start.0 as int, range.end.0 as int),
    {
        lemma_listed(self@, range.start.0 as int, range.end.0 as int);
    }

    /// A map whose first `size` parts have the default value.
    pub fn with_dense_size(size: usize) -> (map: OutputSectionPartMap<T>)
        requires
            size <= u32::MAX,
        ensures
            map.wf(),
            map.dense() == size,
            map@ == Map::new(|id: u32| id < size, |id: u32| T::spec_default()),
    {
        let mut parts: Vec<T> = Vec::new();
        while parts.len() < size
            invariant
                parts@.len() <= size,
                forall|i: int| 0 <= i < parts@.len() ==> parts@[i] == T::spec_default(),
            decreases size - parts@.len(),
        {
            parts.push(T::default_value());
        }
        let map: OutputSectionPartMap<T> = OutputSectionPartMap { parts, sparse: BTreeMap::new() };
        assert(map@ =~= Map::new(|id: u32| id < size, |id: u32| T::spec_default()));
        map
    }

    /// A map of as many parts as this one, each with the default value.
    pub fn new_empty_like<U: DefaultValue>(&self) -> (map: OutputSectionPartMap<U>)
        requires
            self.wf(),
        ensures
            map.wf(),
            map.dense() == self.dense(),
            map@ == Map::new(|id: u32| id < self.dense(), |id: u32| U::spec_default()),
    {
        OutputSectionPartMap::with_dense_size(self.parts.len())
    }

    /// The value of a part, which is the default value if it has none.
    pub fn get(&self, part_id: PartId) -> (value: T)
        requires
            self.wf(),
        ensures
            value == self.value(part_id.0),
    {
        if (part_id.0 as usize) < self.parts.len() {
            self.parts[part_id.0 as usize]
        } else {
            match sparse_parts::find(&self.sparse, part_id.0) {
                Some(value) => value,
                None => T::default_value(),
            }
        }
    }

    /// The value of a part, for update. A part that has none gets the default value.
    pub fn get_mut(&mut self, part_id: PartId) -> (value: &mut T)
        requires
            old(self).wf(),
        ensures
            *value == old(self).value(part_id.0),
            final(self).wf(),
            final(self).dense() == old(self).dense(),
            final(self)@ == old(self)@.insert(part_id.0, *final(value)),
    {
        self.get_or_insert(part_id, T::default_value())
    }

    /// Sets the value of a part.
    pub fn set(&mut self, part_id: PartId, value: T)
        requires
            old(self).wf(),
        ensures
            final(self).wf(),
            final(self).dense() == old(self).dense(),
            final(self)@ == old(self)@.insert(part_id.0, value),
    {
        *self.get_mut(part_id) = value;
    }

    /// A copy of the map.
    pub fn duplicate(&self) -> (map: OutputSectionPartMap<T>)
        requires
            self.wf(),
        ensures
            map.wf(),
            map.dense() == self.dense(),
            map@ == self@,
    {
        let mut parts: Vec<T> = Vec::new();
        let mut i: usize = 0;
        while i < self.parts.len()
            invariant
                i <= self.parts@.len(),
                parts@ == self.parts@.take(i as int),
            decreases self.parts@.len() - i,
        {
            parts.push(self.parts[i]);
            i = i + 1;
        }
        assert(self.parts@.take(i as int) =~= self.parts@);
        OutputSectionPartMap { parts, sparse: self.sparse.clone() }
    }

    /// Returns the value of a part and leaves the default value in its place.
    pub fn take(&mut self, part_id: PartId) -> (value: T)
        requires
            old(self).wf(),
        ensures
            value == old(self).value(part_id.0),
            final(self).wf(),
            final(self).dense() == old(self).dense(),
            final(self)@ == old(self)@.insert(part_id.0, T::spec_default()),
    {
        let slot: &mut T = self.get_mut(part_id);
        let value: T = *slot;
        *slot = T::default_value();
        value
    }

    /// What the map holds for the parts of a range, in the order of the IDs.
    pub fn in_range(&self, range: PartRange) -> (entries: Vec<(PartId, T)>)
        requires
            self.wf(),
            self.one_kind(range),
        ensures
            entries@ == self.entries_in(range),
            lists(entries@, self@, range.start.0 as int, range.end.0 as int),
    {
        let mut entries: Vec<(PartId, T)> = Vec::new();
        let dense: bool = (range.end.0 as usize) <= self.parts.len();
        let mut id: u32 = range.start.0;
        while id < range.end.0
            invariant
                range.start.0 <= id <= range.end.0,
                self.wf(),
                self.one_kind(range),
                dense == (range.end.0 <= self.parts@.len()),
                entries@ == listed(self@, range.start.0 as int, id as int),
            decreases range.end.0 - id,
        {
            if dense {
                entries.push((PartId(id), self.parts[id as usize]));
            } else {
                match sparse_parts::find(&self.sparse, id) {
                    Some(value) => {
                        entries.push((PartId(id), value));
                    },
                    None => {},
                }
            }
            id = id + 1;
        }
        proof {
            self.lemma_entries_in(range);
        }
        entries
    }

    /// The values of the parts of a range, in the order of the IDs.
    pub fn values_in_range(&self, range: PartRange) -> (values: Vec<T>)
        requires
            self.wf(),
            self.one_kind(range),
        ensures
            values@ == Seq::new(
                self.entries_in(range).len(),
                |i: int| self.entries_in(range)[i].1,
            ),
    {
        let entries: Vec<(PartId, T)> = self.in_range(range);
        let mut values: Vec<T> = Vec::new();
        let mut i: usize = 0;
        while i < entries.len()
            invariant
                i <= entries@.len(),
                values@ == Seq::new(i as nat, |j: int| entries@[j].1),
            decreases entries@.len() - i,
        {
            values.push(entries[i].1);
            i = i + 1;
        }
        values
    }

    /// Everything that the map holds, in the order of the IDs.
    pub fn iter(&self) -> (entries: Vec<(PartId, T)>)
        requires
            self.wf(),
        ensures
            lists(entries@, self@, 0, u32::MAX + 1),
    {
        let mut entries: Vec<(PartId, T)> = Vec::new();
        let mut id: usize = 0;
        while id < self.parts.len()
            invariant
                id <= self.parts@.len() <= u32::MAX,
                entries@ == Seq::new(id as nat, |i: int| (PartId(i as u32), self.parts@[i])),
            decreases self.parts@.len() - id,
        {
            entries.push((PartId(id as u32), self.parts[id]));
            id = id + 1;
        }
        let ghost dense = entries@;
        let sparse: Vec<(u32, T)> = sparse_parts::entries(&self.sparse);
        let mut i: usize = 0;
        while i < sparse.len()
            invariant
                i <= sparse@.len(),
                entries@.len() == dense.len() + i,
                forall|k: int| 0 <= k < dense.len() ==> (#[trigger] entries@[k]) == dense[k],
                forall|k: int|
                    dense.len() <= k < entries@.len() ==> (#[trigger] entries@[k]) == (
                        PartId(sparse@[k - dense.len()].0),
                        sparse@[k - dense.len()].1,
                    ),
            decreases sparse@.len() - i,
        {
            let (id, value) = sparse[i];
            entries.push((PartId(id), value));
            i = i + 1;
        }
        proof {
            assert forall|k: int| 0 <= k < entries@.len() implies self@.contains_key(
                (#[trigger] entries@[k]).0.0,
            ) && self@[entries@[k].0.0] == entries@[k].1 && (k >= dense.len() ==> self.parts@.len()
                <= entries@[k].0.0) by {
                if k >= dense.len() {
                    assert(self.sparse@.contains_key(sparse@[k - dense.len()].0));
                } else {
                    assert(entries@[k] == dense[k]);
                }
            }
            assert forall|a: int, b: int| 0 <= a < b < entries@.len() implies entries@[a].0.0
                < entries@[b].0.0 by {
                if a >= dense.len() {
                    assert(sparse@[a - dense.len()].0 < sparse@[b - dense.len()].0);
                } else {
                    assert(entries@[a] == dense[a]);
                    assert(b < dense.len() ==> entries@[b] == dense[b]);
                }
            }
            assert forall|id: u32| #[trigger] self@.contains_key(id) implies has_entry(
                entries@,
                id,
            ) by {
                if id < dense.len() {
                    assert(entries@[id as int].0.0 == id);
                } else {
                    assert(self.sparse@.contains_key(id));
                    let k = choose|k: int| 0 <= k < sparse@.len() && (#[trigger] sparse@[k]).0 == id;
                    assert(entries@[k + dense.len()].0.0 == id);
                }
            }
        }
        entries
    }
}

impl OutputSectionPartMap<u64> {
    /// Adds to the value of a part.
    pub fn increment(&mut self, part_id: PartId, size: u64)
        requires
            old(self).wf(),
            old(self).value(part_id.0) + size <= u64::MAX,
        ensures
            final(self).wf(),
            final(self).dense() == old(self).dense(),
            final(self)@ == old(self)@.insert(
                part_id.0,
                (old(self).value(part_id.0) + size) as u64,
            ),
    {
        let value: u64 = self.get(part_id);
        self.set(part_id, value + size);
    }

    /// Takes away from the value of a part.
    pub fn decrement(&mut self, part_id: PartId, size: u64)
        requires
            old(self).wf(),
            old(self).value(part_id.0) >= size,
        ensures
            final(self).wf(),
            final(self).dense() == old(self).dense(),
            final(self)@ == old(self)@.insert(
                part_id.0,
                (old(self).value(part_id.0) - size) as u64,
            ),
    {
        let value: u64 = self.get(part_id);
        self.set(part_id, value - size);
    }

    /// Increments `self` by `sizes`. Returns the values from before, but only for parts that
    /// `sizes` has a value for.
    pub fn merge_and_return_start_offsets(
        &mut self,
        sizes: &OutputSectionPartMap<u64>,
    ) -> (starts: OutputSectionPartMap<u64>)
        requires
            old(self).wf(),
            sizes.wf(),
            old(self).dense() == sizes.dense(),
            forall|id: u32|
                #[trigger] sizes@.contains_key(id) ==> old(self).value(id) + sizes@[id] <= u64::MAX,
        ensures
            final(self).wf(),
            final(self).dense() == old(self).dense(),
            final(self)@.dom() == old(self)@.dom().union(sizes@.dom()),
            forall|id: u32|
                #![trigger final(self).value(id)]
                final(self).value(id) == old(self).value(id) + sizes.value(id),
            starts.wf(),
            starts.dense() == sizes.dense(),
            starts@ == Map::new(|id: u32| sizes@.contains_key(id), |id: u32| old(self).value(id)),
    {
        let ghost before = *self;
        let advance = |offset: u64, size: u64| -> (updated: (u64, u64))
            requires
                offset + size <= u64::MAX,
            ensures
                updated.0 == offset + size,
                updated.1 == offset,
        {
            (offset + size, offset)
        };
        let starts: OutputSectionPartMap<u64> = self.mut_with_map(sizes, advance);
        assert(starts@ =~= Map::new(
            |id: u32| sizes@.contains_key(id),
            |id: u32| before.value(id),
        ));
        starts
    }
}

impl<T: DefaultValue> OutputSectionPartMap<T> {
    /// Calls `cb` for everything that the map holds. What it returns makes up the new map.
    pub fn map<U: DefaultValue, F: Fn(PartId, T) -> U>(
        &self,
        cb: F,
    ) -> (mapped: OutputSectionPartMap<U>)
        requires
            self.wf(),
            forall|id: u32|
                #[trigger] self@.contains_key(id) ==> call_requires(cb, (PartId(id), self@[id])),
        ensures
            mapped.wf(),
            mapped.dense() == self.dense(),
            mapped@.dom() == self@.dom(),
            forall|id: u32|
                #[trigger] self@.contains_key(id) ==> call_ensures(
                    cb,
                    (PartId(id), self@[id]),
                    mapped@[id],
                ),
    {
        let mut parts: Vec<U> = Vec::new();
        let mut id: usize = 0;
        while id < self.parts.len()
            invariant
                id <= self.parts@.len() <= u32::MAX,
                parts@.len() == id,
                forall|id: u32|
                    #[trigger] self@.contains_key(id) ==> call_requires(
                        cb,
                        (PartId(id), self@[id]),
                    ),
                forall|i: int|
                    0 <= i < id ==> call_ensures(
                        cb,
                        (PartId(i as u32), self.parts@[i]),
                        #[trigger] parts@[i],
                    ),
            decreases self.parts@.len() - id,
        {
            assert(self@.contains_key(id as u32) && self@[id as u32] == self.parts@[id as int]);
            parts.push(cb(PartId(id as u32), self.parts[id]));
            id = id + 1;
        }
        let entries: Vec<(u32, T)> = sparse_parts::entries(&self.sparse);
        let mut sparse: BTreeMap<u32, U> = BTreeMap::new();
        let mut i: usize = 0;
        while i < entries.len()
            invariant
                self.wf(),
                i <= entries@.len(),
                sparse_parts::holds_in_order(entries@, self.sparse@),
                forall|id: u32|
                    #[trigger] self@.contains_key(id) ==> call_requires(
                        cb,
                        (PartId(id), self@[id]),
                    ),
                forall|id: u32| #[trigger]
                    sparse@.contains_key(id) ==> self.sparse@.contains_key(id) && call_ensures(
                        cb,
                        (PartId(id), self.sparse@[id]),
                        sparse@[id],
                    ),
                forall|j: int|
                    0 <= j < i ==> sparse@.contains_key((#[trigger] entries@[j]).0),
            decreases entries@.len() - i,
        {
            let (id, value) = entries[i];
            proof {
                assert(self.sparse@.contains_key(id) && self.sparse@[id] == value);
                assert(self@.contains_key(id) && self@[id] == value);
            }
            sparse_parts::insert(&mut sparse, id, cb(PartId(id), value));
            i = i + 1;
        }
        let mapped: OutputSectionPartMap<U> = OutputSectionPartMap { parts, sparse };
        proof {
            assert forall|id: u32| #[trigger]
                sparse@.contains_key(id) == self.sparse@.contains_key(id) by {
                if self.sparse@.contains_key(id) {
                    let k = choose|k: int| 0 <= k < entries@.len() && (#[trigger] entries@[k]).0 == id;
                    assert(sparse@.contains_key(entries@[k].0));
                }
            }
            assert(mapped@.dom() =~= self@.dom());
            assert forall|id: u32| #[trigger] self@.contains_key(id) implies call_ensures(
                cb,
                (PartId(id), self@[id]),
                mapped@[id],
            ) by {
                if id < self.parts@.len() {
                    assert(mapped@[id] == parts@[id as int]);
                } else {
                    assert(sparse@.contains_key(id));
                }
            }
        }
        mapped
    }

    /// Updates the values for which `other` has one too. `cb` gets the value in `self`, or the
    /// default value if there is none, and the one in `other`. It returns what replaces the value
    /// in `self` and what goes into the new map, which has values for the same parts as `other`.
    pub fn mut_with_map<U: DefaultValue, V: DefaultValue, F: Fn(T, U) -> (T, V)>(
        &mut self,
        other: &OutputSectionPartMap<U>,
        cb: F,
    ) -> (mapped: OutputSectionPartMap<V>)
        requires
            old(self).wf(),
            other.wf(),
            old(self).dense() == other.dense(),
            forall|id: u32|
                #[trigger] other@.contains_key(id) ==> call_requires(
                    cb,
                    (old(self).value(id), other@[id]),
                ),
        ensures
            final(self).wf(),
            final(self).dense() == old(self).dense(),
            final(self)@.dom() == old(self)@.dom().union(other@.dom()),
            mapped.wf(),
            mapped.dense() == other.dense(),
            mapped@.dom() == other@.dom(),
            forall|id: u32|
                #[trigger] other@.contains_key(id) ==> call_ensures(
                    cb,
                    (old(self).value(id), other@[id]),
                    (final(self)@[id], mapped@[id]),
                ),
            forall|id: u32|
                #![trigger final(self)@[id]]
                old(self)@.contains_key(id) && !other@.contains_key(id) ==> final(self)@[id] == old(
                    self,
                )@[id],
    {
        let ghost before = *self;
        let mut mapped: OutputSectionPartMap<V> = OutputSectionPartMap::with_dense_size(
            other.dense_len(),
        );
        let entries: Vec<(PartId, U)> = other.iter();
        let mut i: usize = 0;
        while i < entries.len()
            invariant
                i <= entries@.len(),
                before.wf(),
                self.wf(),
                other.wf(),
                mapped.wf(),
                self.dense() == before.dense() == other.dense() == mapped.dense(),
                lists(entries@, other@, 0, u32::MAX + 1),
                forall|id: u32|
                    #[trigger] other@.contains_key(id) ==> call_requires(
                        cb,
                        (before.value(id), other@[id]),
                    ),
                forall|id: u32|
                    #![trigger self@.contains_key(id)]
                    self@.contains_key(id) <==> before@.contains_key(id) || has_entry(
                        entries@.take(i as int),
                        id,
                    ),
                forall|id: u32|
                    #![trigger mapped@.contains_key(id)]
                    mapped@.contains_key(id) <==> id < other.dense() || has_entry(
                        entries@.take(i as int),
                        id,
                    ),
                forall|id: u32|
                    #![trigger self.value(id)]
                    !has_entry(entries@.take(i as int), id) ==> self.value(id) == before.value(id),
                forall|j: int|
                    0 <= j < i ==> call_ensures(
                        cb,
                        (before.value((#[trigger] entries@[j]).0.0), entries@[j].1),
                        (self@[entries@[j].0.0], mapped@[entries@[j].0.0]),
                    ),
            decreases entries@.len() - i,
        {
            let (part_id, right) = entries[i];
            assert(other@.contains_key(part_id.0));
            proof {
                assert(!has_entry(entries@.take(i as int), part_id.0)) by {
                    if has_entry(entries@.take(i as int), part_id.0) {
                        let k = choose|k: int|
                            0 <= k < i && (#[trigger] entries@.take(i as int)[k]).0.0 == part_id.0;
                        assert(entries@[k].0.0 < entries@[i as int].0.0);
                    }
                }
                assert(self.value(part_id.0) == before.value(part_id.0));
            }
            let left: T = self.get(part_id);
            let (updated, result) = cb(left, right);
            let ghost previous = *self;
            self.set(part_id, updated);
            mapped.set(part_id, result);
            proof {
                let now = entries@.take(i as int);
                let next = entries@.take(i + 1);
                assert forall|id: u32| has_entry(next, id) == (has_entry(now, id) || id
                    == part_id.0) by {
                    if has_entry(now, id) {
                        let k = choose|k: int| 0 <= k < now.len() && (#[trigger] now[k]).0.0 == id;
                        assert(next[k] == now[k]);
                    }
                    if id == part_id.0 {
                        assert(next[i as int].0.0 == id);
                    }
                    if has_entry(next, id) && id != part_id.0 {
                        let k = choose|k: int|
                            0 <= k < next.len() && (#[trigger] next[k]).0.0 == id;
                        assert(now[k] == next[k]);
                    }
                }
                assert forall|id: u32|
                    #![trigger self.value(id)]
                    !has_entry(next, id) implies self.value(id) == before.value(id) by {
                    assert(previous.value(id) == before.value(id));
                }
                assert forall|j: int| 0 <= j < i + 1 implies call_ensures(
                    cb,
                    (before.value((#[trigger] entries@[j]).0.0), entries@[j].1),
                    (self@[entries@[j].0.0], mapped@[entries@[j].0.0]),
                ) by {
                    if j < i {
                        assert(entries@[j].0.0 < entries@[i as int].0.0);
                    }
                }
            }
            i = i + 1;
        }
        proof {
            assert(entries@.take(i as int) == entries@);
            assert forall|id: u32| #[trigger] other@.contains_key(id) == has_entry(
                entries@,
                id,
            ) by {
                if has_entry(entries@, id) {
                    let k = choose|k: int|
                        0 <= k < entries@.len() && (#[trigger] entries@[k]).0.0 == id;
                }
            }
            assert(self@.dom() =~= before@.dom().union(other@.dom()));
            assert forall|id: u32| id < other.dense() implies other@.contains_key(id) by {
                other.lemma_dense_present(id);
            }
            assert(mapped@.dom() =~= other@.dom());
            assert forall|id: u32| #[trigger] other@.contains_key(id) implies call_ensures(
                cb,
                (before.value(id), other@[id]),
                (self@[id], mapped@[id]),
            ) by {
                let k = choose|k: int|
                    0 <= k < entries@.len() && (#[trigger] entries@[k]).0.0 == id;
                assert(entries@[k].0.0 == id);
            }
            assert forall|id: u32|
                #![trigger self@[id]]
                before@.contains_key(id) && !other@.contains_key(id) implies self@[id]
                == before@[id] by {
                assert(self.value(id) == before.value(id));
            }
        }
        mapped
    }
}

impl<T: Additive> OutputSectionPartMap<T> {
    /// Adds the values of another map to the values of this one.
    pub fn merge(&mut self, rhs: &OutputSectionPartMap<T>)
        requires
            old(self).wf(),
            rhs.wf(),
            old(self).dense() == rhs.dense(),
            forall|id: u32|
                #[trigger] rhs@.contains_key(id) ==> old(self).value(id).amount()
                    + rhs@[id].amount() <= T::limit(),
        ensures
            final(self).wf(),
            final(self).dense() == old(self).dense(),
            final(self)@.dom() == old(self)@.dom().union(rhs@.dom()),
            forall|id: u32|
                #![trigger final(self).value(id)]
                final(self).value(id).amount() == old(self).value(id).amount() + rhs.value(
                    id,
                ).amount(),
    {
        proof {
            T::default_amount();
        }
        let sum = |left: T, right: T| -> (updated: (T, bool))
            requires
                left.amount() + right.amount() <= T::limit(),
            ensures
                updated.0.amount() == left.amount() + right.amount(),
        {
            (left.plus(right), false)
        };
        self.mut_with_map(rhs, sum);
    }
}

} // verus!
