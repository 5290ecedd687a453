use vstd::prelude::*;

verus! {

/// Failures of the buffers and of the waiting primitives.
#[derive(Clone, Copy, Debug, PartialEq, Eq, Structural)]
pub enum BufError {
    /// The bound context or the buffer itself was closed.
    Closed,
    /// A caller-supplied context was cancelled.
    Cancelled,
    /// A bounded wait elapsed without a signal.
    TimedOut,
    /// No room is left for the data.
    Full,
    /// Not enough data is buffered.
    Empty,
    /// An offset or a length lies outside the valid range.
    OutOfBounds,
}

} // verus!
