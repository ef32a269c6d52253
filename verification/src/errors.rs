use vstd::prelude::*;

verus! {

/// Failure taxonomy of the client.
///
/// Every component surfaces its failure to the caller immediately;
/// there is no retry and no partial success.
#[derive(Clone, Copy, Debug, PartialEq, Eq, Structural)]
pub enum SwapError {
    /// A malformed address, chain id, or amount; raised before any
    /// network activity.
    ParseError,
    /// The node is unreachable or a call reverted.
    RpcError,
    /// A contract call returned fewer bytes than a mandatory field
    /// requires.
    InvalidResponse,
    /// Signing failed or the broadcast was rejected.
    SubmissionError,
}

} // verus!
