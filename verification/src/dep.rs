use vstd::prelude::*;
use std::sync::Arc;

verus! {

/// `Arc::clone`: the clone points at the same value.
#[verifier::external_body]
pub(crate) fn arc_clone<T: ?Sized>(a: &Arc<T>) -> (r: Arc<T>)
    ensures
        r == *a,
{
    Arc::clone(a)
}

/// A shared handle to a dependency that tasks can ask for.
pub struct Dep<T> {
    dep: Arc<T>,
}

impl<T> Dep<T> {
    /// The value this handle shares.
    pub closed spec fn value(&self) -> T {
        *self.dep
    }

    /// Wraps `state` in a new shared handle.
    pub fn new(state: T) -> (r: Self)
        ensures
            r.value() == state,
    {
        Dep { dep: Arc::new(state) }
    }

    /// The shared value.
    pub fn inner(&self) -> (r: &T)
        ensures
            *r == self.value(),
    {
        &self.dep
    }

    /// A second handle to the same value.
    pub fn clone(&self) -> (r: Self)
        ensures
            r.value() == self.value(),
    {
        Dep { dep: arc_clone(&self.dep) }
    }
}

} // verus!
