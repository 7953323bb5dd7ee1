//! What the performance of an operation needs from the task system.
use vstd::prelude::*;

verus! {

/// `std::task::Context`, through which a task asks to be woken.
#[verifier::external_type_specification]
#[verifier::external_body]
pub struct ExContext<'a>(std::task::Context<'a>);

/// `std::task::Poll`, which tells finished work from work still under way.
#[verifier::external_type_specification]
#[verifier::external_body]
#[verifier::reject_recursive_types(T)]
pub struct ExPoll<T>(std::task::Poll<T>);

/// An operation under way whose type has been erased.
pub struct Erased<P> {
    /// The pointer to it.
    pub inner: P,
}

} // verus!
