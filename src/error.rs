use vstd::prelude::*;

verus! {

/// Why a plotting run stops.
#[derive(Clone, Copy, Debug, PartialEq, Eq, Structural)]
pub enum PlotError {
    /// The parameters cannot make a run (a chunk would hold no nonce, no
    /// backend has a share, a transfer unit that scoops cannot fill).
    Configuration,
    /// The aligned buffers could not be reserved.
    OutOfMemory,
    /// A hash backend reported a failure.
    Backend,
    /// A write would not start or end on a transfer-unit boundary.
    Alignment,
    /// Storage failed; `offset` is the byte offset of the write that failed.
    Write { offset: u64 },
}

} // verus!
