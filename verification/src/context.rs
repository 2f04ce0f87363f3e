use vstd::prelude::*;

verus! {

/// A value shared with every task that the scheduler runs.
pub trait SkedgyContext: Clone + Send + Sync + 'static {

}

impl<T: Clone + Send + Sync + 'static> SkedgyContext for T {

}

} // verus!
