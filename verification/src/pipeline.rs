//! The decision the pipeline's stages make after handing a value on.
use vstd::prelude::*;

verus! {

/// What a stage of the pipeline does after handing a value or batch to the
/// next stage.
#[derive(Debug, Clone, Copy, PartialEq, Eq, Structural)]
pub enum StageNext {
    /// Go on with the next value.
    Continue,
    /// Exit: the next stage is gone.
    Exit,
}

/// A stage goes on while the next stage takes what it hands on, and exits at
/// the first refusal. (A refused throughput report does not stop a stage: the
/// report is dropped.)
pub fn after_forward(taken: bool) -> (next: StageNext)
    ensures
        next == (if taken { StageNext::Continue } else { StageNext::Exit }),
{
    if taken {
        StageNext::Continue
    } else {
        StageNext::Exit
    }
}

} // verus!
