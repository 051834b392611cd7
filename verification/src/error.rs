use vstd::prelude::*;

verus! {

/// Error taxonomy of the execution core. Every failure is returned to
/// the caller; no component panics on a recoverable condition.
#[derive(Clone, Copy, Debug, PartialEq, Eq, Structural)]
pub enum Error {
    /// Unexpected invariant violation, e.g. a concurrent task join failing.
    Internal,
    /// Outbound queue closed: the receiving peer's task is gone.
    Send,
    /// Inbound channel closed before the awaited id arrived, or the
    /// received payload failed to decode as the expected type.
    Receive,
    /// Secret-share reconstruction given a malformed share set.
    Combine,
    /// Numeric narrowing failure, e.g. a reconstructed value exceeding
    /// its target width.
    TypeConversion,
    /// Pipeline construction rejected: a step's input type does not
    /// match the running output type of the chain so far.
    Construction,
}

} // verus!
