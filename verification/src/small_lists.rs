//! Short lists of section indexes.
use vstd::prelude::*;

verus! {

/// A short list of the `smallvec` crate of section indexes.
#[verifier::external_body]
pub struct IndexList {
    list: smallvec::SmallVec<[usize; 16]>,
}

/// A short list of the `smallvec` crate of section indexes, each with a margin in bytes.
#[verifier::external_body]
pub struct MarginList {
    list: smallvec::SmallVec<[(usize, u64); 16]>,
}

/// What an `IndexList` holds.
pub uninterp spec fn index_list_contents(list: IndexList) -> Seq<usize>;

/// What a `MarginList` holds.
pub uninterp spec fn margin_list_contents(list: MarginList) -> Seq<(usize, u64)>;

impl View for IndexList {
    type V = Seq<usize>;

    open spec fn view(&self) -> Seq<usize> {
        index_list_contents(*self)
    }
}

impl View for MarginList {
    type V = Seq<(usize, u64)>;

    open spec fn view(&self) -> Seq<(usize, u64)> {
        margin_list_contents(*self)
    }
}

/// Calls `smallvec::SmallVec::new`, which returns an empty list.
#[verifier::external_body]
fn smallvec_new_indexes() -> (list: IndexList)
    ensures
        index_list_contents(list) == Seq::<usize>::empty(),
{
    IndexList { list: smallvec::SmallVec::new() }
}

/// Calls `smallvec::SmallVec::push`, which adds an item at the end.
#[verifier::external_body]
fn smallvec_push_index(list: &mut IndexList, index: usize)
    ensures
        index_list_contents(*final(list)) == index_list_contents(*old(list)).push(index),
{
    list.list.push(index);
}

/// Calls `smallvec::SmallVec::len`, which returns the number of items.
#[verifier::external_body]
fn smallvec_count_indexes(list: &IndexList) -> (count: usize)
    ensures
        count == index_list_contents(*list).len(),
{
    list.list.len()
}

/// Reads an item of a `smallvec::SmallVec` as of the slice that it dereferences to.
#[verifier::external_body]
fn smallvec_index_at(list: &IndexList, position: usize) -> (index: usize)
    requires
        position < index_list_contents(*list).len(),
    ensures
        index == index_list_contents(*list)[position as int],
{
    list.list[position]
}

/// Calls `smallvec::SmallVec::new`, which returns an empty list.
#[verifier::external_body]
fn smallvec_new_margins() -> (list: MarginList)
    ensures
        margin_list_contents(list).len() == 0,
{
    MarginList { list: smallvec::SmallVec::new() }
}

/// Calls `smallvec::SmallVec::push`, which adds an item at the end.
#[verifier::external_body]
fn smallvec_push_margin(list: &mut MarginList, index: usize, margin: u64)
    ensures
        margin_list_contents(*final(list)) == margin_list_contents(*old(list)).push((index, margin)),
{
    list.list.push((index, margin));
}

/// Calls `smallvec::SmallVec::len`, which returns the number of items.
#[verifier::external_body]
fn smallvec_count_margins(list: &MarginList) -> (count: usize)
    ensures
        count == margin_list_contents(*list).len(),
{
    list.list.len()
}

/// Reads an item of a `smallvec::SmallVec` as of the slice that it dereferences to.
#[verifier::external_body]
fn smallvec_margin_at(list: &MarginList, position: usize) -> (item: (usize, u64))
    requires
        position < margin_list_contents(*list).len(),
    ensures
        item == margin_list_contents(*list)[position as int],
{
    list.list[position]
}

impl IndexList {
    /// An empty list.
    pub fn new() -> (list: IndexList)
        ensures
            list@ == Seq::<usize>::empty(),
    {
        smallvec_new_indexes()
    }

    pub fn push(&mut self, index: usize)
        ensures
            final(self)@ == old(self)@.push(index),
    {
        smallvec_push_index(self, index)
    }

    pub fn len(&self) -> (count: usize)
        ensures
            count == self@.len(),
    {
        smallvec_count_indexes(self)
    }

    pub fn is_empty(&self) -> (empty: bool)
        ensures
            empty == (self@.len() == 0),
    {
        smallvec_count_indexes(self) == 0
    }

    pub fn get(&self, position: usize) -> (index: usize)
        requires
            position < self@.len(),
        ensures
            index == self@[position as int],
    {
        smallvec_index_at(self, position)
    }

    /// A copy of the list.
    pub fn duplicate(&self) -> (list: IndexList)
        ensures
            list@ == self@,
    {
        let mut list: IndexList = IndexList::new();
        let mut i: usize = 0;
        while i < self.len()
            invariant
                i <= self@.len(),
                list@ == self@.take(i as int),
            decreases self@.len() - i,
        {
            list.push(self.get(i));
            assert(self@.take(i + 1) =~= self@.take(i as int).push(self@[i as int]));
            i = i + 1;
        }
        assert(self@.take(i as int) =~= self@);
        list
    }
}

impl MarginList {
    /// An empty list.
    pub fn new() -> (list: MarginList)
        ensures
            list@.len() == 0,
    {
        smallvec_new_margins()
    }

    pub fn push(&mut self, index: usize, margin: u64)
        ensures
            final(self)@ == old(self)@.push((index, margin)),
    {
        smallvec_push_margin(self, index, margin)
    }

    pub fn len(&self) -> (count: usize)
        ensures
            count == self@.len(),
    {
        smallvec_count_margins(self)
    }

    pub fn get(&self, position: usize) -> (item: (usize, u64))
        requires
            position < self@.len(),
        ensures
            item == self@[position as int],
    {
        smallvec_margin_at(self, position)
    }
}

} // verus!
