//! Sorting by a key.
use vstd::prelude::*;

verus! {

/// Whether a key comes before another. The first numbers decide; the second ones count if the
/// first are equal.
pub open spec fn key_before(a: (u64, u64), b: (u64, u64)) -> bool {
    a.0 < b.0 || (a.0 == b.0 && a.1 < b.1)
}

/// Whether the item at position `a` comes before the one at position `b`. Of items with equal
/// keys, the first comes first.
pub open spec fn comes_before(keys: Seq<(u64, u64)>, a: int, b: int) -> bool {
    key_before(keys[a], keys[b]) || (keys[a] == keys[b] && a < b)
}

/// Whether an item is listed.
pub open spec fn listed(order: Seq<usize>, item: int) -> bool {
    exists|i: int| 0 <= i < order.len() && #[trigger] order[i] == item
}

/// Whether a list holds the position of every item once, ordered by key. Items with equal keys
/// stay in their original order.
pub open spec fn is_stable_order(order: Seq<usize>, keys: Seq<(u64, u64)>) -> bool {
    &&& order.len() == keys.len()
    &&& forall|i: int| 0 <= i < order.len() ==> (#[trigger] order[i]) < keys.len()
    &&& forall|item: int| 0 <= item < keys.len() ==> #[trigger] listed(order, item)
    &&& forall|i: int, j: int|
        0 <= i < j < order.len() ==> comes_before(
            keys,
            #[trigger] order[i] as int,
            #[trigger] order[j] as int,
        )
}

/// There is only one stable order.
pub proof fn lemma_stable_order_unique(
    a: Seq<usize>,
    b: Seq<usize>,
    keys: Seq<(u64, u64)>,
)
    requires
        is_stable_order(a, keys),
        is_stable_order(b, keys),
    ensures
        a == b,
{
    assert forall|i: int| 0 <= i < a.len() implies a[i] == b[i] by {
        lemma_same_prefix(a, b, keys, i + 1);
    }
    assert(a =~= b);
}

proof fn lemma_same_prefix(a: Seq<usize>, b: Seq<usize>, keys: Seq<(u64, u64)>, count: int)
    requires
        is_stable_order(a, keys),
        is_stable_order(b, keys),
        0 <= count <= a.len(),
    ensures
        forall|i: int| 0 <= i < count ==> #[trigger] a[i] == b[i],
    decreases count,
{
    if count > 0 {
        lemma_same_prefix(a, b, keys, count - 1);
        let last = count - 1;
        assert(listed(b, a[last] as int));
        let in_b = choose|i: int| 0 <= i < b.len() && #[trigger] b[i] == a[last];
        assert(listed(a, b[last] as int));
        let in_a = choose|i: int| 0 <= i < a.len() && #[trigger] a[i] == b[last];
        if in_b < last {
            assert(a[in_b] == b[in_b]);
            assert(comes_before(keys, a[in_b] as int, a[last] as int));
        }
        if in_a < last {
            assert(a[in_a] == b[in_a]);
            assert(comes_before(keys, b[in_a] as int, b[last] as int));
        }
        if in_b > last && in_a > last {
            assert(comes_before(keys, b[last] as int, b[in_b] as int));
            assert(comes_before(keys, a[last] as int, a[in_a] as int));
        }
    }
}

proof fn lemma_insert(
    order: Seq<usize>,
    keys: Seq<(u64, u64)>,
    count: usize,
    position: int,
)
    requires
        count < keys.len(),
        is_stable_order(order, keys.take(count as int)),
        0 <= position <= count,
        forall|i: int|
            0 <= i < position ==> !key_before(
                keys[count as int],
                keys[#[trigger] order[i] as int],
            ),
        position < count ==> key_before(keys[count as int], keys[order[position] as int]),
    ensures
        is_stable_order(order.insert(position, count), keys.take(count + 1)),
{
    let before = keys.take(count as int);
    let after = keys.take(count + 1);
    let new = order.insert(position, count);
    assert(new.len() == count + 1);
    assert forall|i: int| 0 <= i < new.len() implies (#[trigger] new[i]) < after.len() by {
        if i < position {
            assert(new[i] == order[i]);
        } else if i > position {
            assert(new[i] == order[i - 1]);
        }
    }
    assert forall|item: int| 0 <= item < after.len() implies #[trigger] listed(new, item) by {
        if item == count {
            assert(new[position] == item);
        } else {
            assert(listed(order, item));
            let i = choose|i: int| 0 <= i < order.len() && #[trigger] order[i] == item;
            if i < position {
                assert(new[i] == item);
            } else {
                assert(new[i + 1] == item);
            }
        }
    }
    assert forall|i: int, j: int| 0 <= i < j < new.len() implies comes_before(
        after,
        #[trigger] new[i] as int,
        #[trigger] new[j] as int,
    ) by {
        let old_i = if i < position {
            i
        } else {
            i - 1
        };
        let old_j = if j < position {
            j
        } else {
            j - 1
        };
        if i != position && j != position {
            assert(comes_before(before, order[old_i] as int, order[old_j] as int));
        } else if j == position {
            assert(order[i] < before.len());
        } else {
            assert(order[old_j] < before.len());
            if old_j > position {
                assert(comes_before(before, order[position] as int, order[old_j] as int));
                assert(order[position] < before.len());
            }
        }
    }
}

fn key_is_before(a: (u64, u64), b: (u64, u64)) -> (result: bool)
    ensures
        result == key_before(a, b),
{
    a.0 < b.0 || (a.0 == b.0 && a.1 < b.1)
}

/// The order in which items with the given keys are sorted. Items with equal keys stay in their
/// original order.
pub fn stable_order(keys: &Vec<(u64, u64)>) -> (order: Vec<usize>)
    ensures
        is_stable_order(order@, keys@),
{
    let mut order: Vec<usize> = Vec::new();
    let mut count: usize = 0;
    while count < keys.len()
        invariant
            count <= keys@.len(),
            is_stable_order(order@, keys@.take(count as int)),
        decreases keys@.len() - count,
    {
        let mut position: usize = 0;
        while position < order.len() && !key_is_before(keys[count], keys[order[position]])
            invariant
                count < keys@.len(),
                position <= order@.len(),
                order@.len() == count,
                forall|i: int| 0 <= i < order@.len() ==> (#[trigger] order@[i]) < count,
                forall|i: int|
                    0 <= i < position ==> !key_before(
                        keys@[count as int],
                        keys@[#[trigger] order@[i] as int],
                    ),
            decreases order@.len() - position,
        {
            position = position + 1;
        }
        proof {
            lemma_insert(order@, keys@, count, position as int);
        }
        order.insert(position, count);
        count = count + 1;
    }
    assert(keys@.take(count as int) =~= keys@);
    order
}

} // verus!
