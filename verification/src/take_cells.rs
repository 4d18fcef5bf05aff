//! Cells whose value can be taken once.
use vstd::prelude::*;

verus! {

/// A cell of the `atomic_take` crate.
#[verifier::external_type_specification]
#[verifier::external_body]
#[verifier::reject_recursive_types(T)]
pub struct ExAtomicTake<T>(atomic_take::AtomicTake<T>);

/// What a cell holds: its value until it is taken, and then nothing.
pub uninterp spec fn take_contents(cell: atomic_take::AtomicTake<usize>) -> Seq<usize>;

/// Calls `atomic_take::AtomicTake::new`, which returns a cell that holds the value.
#[verifier::external_body]
pub(crate) fn atomic_take_new(value: usize) -> (cell: atomic_take::AtomicTake<usize>)
    ensures
        take_contents(cell) == seq![value],
{
    atomic_take::AtomicTake::new(value)
}

/// Calls `atomic_take::AtomicTake::is_taken`, which says whether the value has been taken.
#[verifier::external_body]
pub(crate) fn atomic_take_is_taken(cell: &atomic_take::AtomicTake<usize>) -> (taken: bool)
    ensures
        taken == (take_contents(*cell).len() == 0),
{
    cell.is_taken()
}

/// Calls `atomic_take::AtomicTake::take`, which returns the value if it has not been taken, and
/// leaves nothing behind. Nothing else can take it at the same time because the reference is
/// exclusive.
#[verifier::external_body]
pub(crate) fn atomic_take_take(cell: &mut atomic_take::AtomicTake<usize>) -> (value: Option<usize>)
    ensures
        value == (if take_contents(*old(cell)).len() == 0 {
            None::<usize>
        } else {
            Some(take_contents(*old(cell))[0])
        }),
        take_contents(*final(cell)) == Seq::<usize>::empty(),
{
    cell.take()
}

} // verus!
