//! What relaxation deletes from sections.
use vstd::prelude::*;

verus! {

/// The bytes that relaxation has deleted from a section: offsets in the input and how many bytes
/// were deleted there.
#[derive(Debug)]
pub struct RelaxDeltas {
    pub deltas: Vec<(u64, u32)>,
}

/// How many bytes the first `count` deltas delete.
pub open spec fn total_deleted(deltas: Seq<(u64, u32)>, count: int) -> int
    decreases count,
{
    if count <= 0 {
        0
    } else {
        total_deleted(deltas, count - 1) + deltas[count - 1].1
    }
}

/// How many bytes the first `count` deltas delete before an offset.
pub open spec fn deleted_before(deltas: Seq<(u64, u32)>, offset: u64, count: int) -> int
    decreases count,
{
    if count <= 0 {
        0
    } else {
        deleted_before(deltas, offset, count - 1) + (if deltas[count - 1].0 < offset {
            deltas[count - 1].1 as int
        } else {
            0
        })
    }
}

/// The offset in the output of an offset in the input. `None` if more is deleted than there is.
pub open spec fn output_offset(deltas: Seq<(u64, u32)>, offset: u64) -> Option<u64> {
    let deleted = deleted_before(deltas, offset, deltas.len() as int);
    if deleted <= offset {
        Some((offset - deleted) as u64)
    } else {
        None
    }
}

proof fn lemma_deleted_bounds(deltas: Seq<(u64, u32)>, offset: u64, count: int, total: int)
    requires
        0 <= count <= total,
    ensures
        0 <= deleted_before(deltas, offset, count) <= deleted_before(deltas, offset, total),
        deleted_before(deltas, offset, count) <= total_deleted(deltas, count),
        0 <= total_deleted(deltas, count) <= total_deleted(deltas, total),
        total_deleted(deltas, count) <= count * u32::MAX,
    decreases total,
{
    if count < total {
        lemma_deleted_bounds(deltas, offset, count, total - 1);
    } else if total > 0 {
        lemma_deleted_bounds(deltas, offset, total - 1, total - 1);
    }
}

/// How many bytes a list of deltas deletes. `None` if it is not a 64-bit number.
pub fn sum_deleted(deltas: &Vec<(u64, u32)>) -> (sum: Option<u64>)
    ensures
        match sum {
            Some(sum) => sum == total_deleted(deltas@, deltas@.len() as int),
            None => total_deleted(deltas@, deltas@.len() as int) > u64::MAX,
        },
{
    let mut sum: u64 = 0;
    let mut i: usize = 0;
    while i < deltas.len()
        invariant
            i <= deltas@.len(),
            sum == total_deleted(deltas@, i as int),
        decreases deltas@.len() - i,
    {
        match sum.checked_add(deltas[i].1 as u64) {
            Some(next) => {
                sum = next;
            },
            None => {
                proof {
                    lemma_deleted_bounds(deltas@, 0, i + 1, deltas@.len() as int);
                }
                return None;
            },
        }
        i = i + 1;
    }
    Some(sum)
}

impl RelaxDeltas {
    /// Nothing deleted.
    pub fn empty() -> (deltas: RelaxDeltas)
        ensures
            deltas.deltas@ == Seq::<(u64, u32)>::empty(),
    {
        RelaxDeltas { deltas: Vec::new() }
    }

    /// The offset in the output of an offset in the input.
    pub fn input_to_output(&self, offset: u64) -> (output: Option<u64>)
        ensures
            output == output_offset(self.deltas@, offset),
    {
        let mut left: u64 = offset;
        let mut i: usize = 0;
        while i < self.deltas.len()
            invariant
                i <= self.deltas@.len(),
                left == offset - deleted_before(self.deltas@, offset, i as int),
            decreases self.deltas@.len() - i,
        {
            let (at, bytes) = self.deltas[i];
            if at < offset {
                if (bytes as u64) > left {
                    proof {
                        lemma_deleted_bounds(
                            self.deltas@,
                            offset,
                            i + 1,
                            self.deltas@.len() as int,
                        );
                    }
                    return None;
                }
                left = left - bytes as u64;
            }
            proof {
                lemma_deleted_bounds(self.deltas@, offset, i as int, i + 1);
            }
            i = i + 1;
        }
        proof {
            lemma_deleted_bounds(self.deltas@, offset, 0, i as int);
        }
        Some(left)
    }

    /// Adds what another pass has deleted.
    pub fn merge_additional(&mut self, additional: &Vec<(u64, u32)>)
        ensures
            final(self).deltas@ == old(self).deltas@ + additional@,
    {
        let ghost before = self.deltas@;
        let mut i: usize = 0;
        while i < additional.len()
            invariant
                i <= additional@.len(),
                before == old(self).deltas@,
                self.deltas@ == before + additional@.take(i as int),
            decreases additional@.len() - i,
        {
            let delta: (u64, u32) = additional[i];
            self.deltas.push(delta);
            assert(additional@.take(i + 1) =~= additional@.take(i as int).push(delta));
            i = i + 1;
        }
        assert(additional@.take(i as int) =~= additional@);
    }
}

/// No list of deltas deletes less than nothing.
pub proof fn lemma_total_deleted(deltas: Seq<(u64, u32)>, count: int)
    ensures
        total_deleted(deltas, count) >= 0,
{
    if count > 0 {
        lemma_deleted_bounds(deltas, 0, count, count);
    }
}

/// Relaxation never moves anything up: an offset in the output is at most the offset in the input,
/// and nothing moves if nothing has been deleted.
pub proof fn lemma_output_offset(deltas: Seq<(u64, u32)>, offset: u64)
    ensures
        output_offset(deltas, offset) matches Some(output) ==> output <= offset,
        deltas.len() == 0 ==> output_offset(deltas, offset) == Some(offset),
{
    lemma_deleted_bounds(deltas, offset, 0, deltas.len() as int);
}

} // verus!
