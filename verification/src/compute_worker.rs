//! The per-frame decision of the system that reads back the GPU compute
//! worker of the particle sketch.
use vstd::prelude::*;

verus! {

/// What the read-back system does in one frame.
#[derive(Clone, Copy, Debug, PartialEq, Eq, Structural)]
pub enum WorkerStep {
    /// The worker has not finished a run yet: leave it alone.
    Wait,
    /// Read the `values` buffer back, then write new values into it.
    ReadThenWrite,
}

/// Touch the worker's buffers only once it reports that it is ready.
pub fn worker_step(ready: bool) -> (step: WorkerStep)
    ensures
        step == (if ready { WorkerStep::ReadThenWrite } else { WorkerStep::Wait }),
{
    if ready {
        WorkerStep::ReadThenWrite
    } else {
        WorkerStep::Wait
    }
}

} // verus!
