//! A cheaply clonable, shared wrapper around an owned value.

use vstd::prelude::*;
use std::sync::Arc;

verus! {

/// Shared immutable data: clones share one allocation.
#[derive(Debug)]
pub struct Data<T>(Arc<Box<T>>);

/// Relies on std's `Arc::clone`: the returned handle points to the same
/// allocation, so it carries the same value.
#[verifier::external_body]
fn arc_clone<T>(v: &Arc<Box<T>>) -> (r: Arc<Box<T>>)
    ensures
        **r == **v,
{
    v.clone()
}

impl<T> Data<T> {
    /// The wrapped value.
    pub closed spec fn view(&self) -> T {
        **self.0
    }

    /// Create a new `Data` holding `state`.
    pub fn new(state: Box<T>) -> (r: Data<T>)
        ensures
            r@ == state,
    {
        Data(Arc::new(state))
    }

    /// Borrow the inner value.
    pub fn get_ref(&self) -> (r: &T)
        ensures
            *r == self@,
    {
        &**self.0
    }

    /// Hand out the shared allocation itself.
    pub fn into_inner(self) -> (r: Arc<Box<T>>)
        ensures
            **r == self@,
    {
        arc_clone(&self.0)
    }
}

impl<T> Clone for Data<T> {
    /// Another handle to the same value.
    fn clone(&self) -> (r: Data<T>)
        ensures
            r@ == self@,
    {
        Data(arc_clone(&self.0))
    }
}

impl<T> From<Arc<Box<T>>> for Data<T> {
    /// Adopt an existing shared allocation.
    fn from(arc: Arc<Box<T>>) -> (r: Data<T>)
        ensures
            r@ == **arc,
    {
        Data(arc)
    }
}

impl<T> vstd::std_specs::convert::FromSpecImpl<Arc<Box<T>>> for Data<T> {
    open spec fn obeys_from_spec() -> bool {
        false
    }

    open spec fn from_spec(arc: Arc<Box<T>>) -> Data<T> {
        arbitrary()
    }
}

/// What a shared-data handle offers: cheap copies and adoption of an
/// existing allocation.
pub trait DataTrait<T>: Clone + From<Arc<Box<T>>> {

}

impl<T> DataTrait<T> for Data<T> {

}

} // verus!
