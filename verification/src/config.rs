use vstd::prelude::*;

verus! {

/// Configuration for the scheduler.
#[derive(Debug, Clone, Copy, PartialEq, Eq, Structural)]
pub struct SkedgyConfig {
    /// How far past a wake-up time (in milliseconds) the scheduler also
    /// collects due tasks into the same batch.
    pub look_ahead_duration: u64,
}

impl Default for SkedgyConfig {
    fn default() -> (r: Self)
        ensures
            r.look_ahead_duration == 10,
    {
        SkedgyConfig { look_ahead_duration: 10 }
    }
}

} // verus!
