use core::task::Waker;
use vstd::prelude::*;

verus! {

/// Declares `std::task::Waker`. A waker is carried from the task that waits to
/// the caller that wakes it; nothing is claimed of what is inside one.
#[verifier::external_type_specification]
#[verifier::external_body]
pub struct ExWaker(Waker);

/// Whether an operation has finished or has to be tried again after a wake up.
#[derive(Debug, PartialEq, Eq)]
pub enum Poll<T> {
    /// The operation finished with this value.
    Ready(T),
    /// The operation has to wait.
    Pending,
}

} // verus!
