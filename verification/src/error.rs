use vstd::prelude::*;

verus! {

/// Errors arising from fiber-bundle timing operations.
///
/// `T` is the scalar type of the timeline and of fiber states; it appears only
/// in the drift report.
#[derive(Debug)]
pub enum FiberError<T> {
    /// The timeline must contain at least one point.
    EmptyBaseSpace,
    /// The fiber dimension must be at least 1; carries the offending dimension.
    InvalidFiberDimension(usize),
    /// A transport matrix is not `expected × expected`; `got` is its row count.
    TransportMatrixSizeMismatch { expected: usize, got: usize },
    /// An index lies beyond a sequence of length `len`.
    IndexOutOfBounds { index: usize, len: usize },
    /// A loop path needs at least two points; carries the path length.
    LoopTooShort(usize),
    /// A loop path must end where it starts.
    LoopNotClosed { start: usize, end: usize },
    /// No agent was registered before building schedules.
    NoAgents,
    /// An agent's drift exceeds the tolerance of its monitor.
    DriftExceeded { drift: T, tolerance: T, agent_id: String },
}

} // verus!
