use vstd::prelude::*;

verus! {

/// The typed failures a router operation can report.  Every entry point
/// returns either a successful value or exactly one of these kinds; no
/// partial state survives a failed operation.
#[derive(Clone, Copy, Debug, PartialEq, Eq)]
pub enum Error {
    /// A bad amount or a parameter outside its allowed range.
    InvalidAsset,
    /// A hop cannot produce a positive output, or its price impact is
    /// above the per-hop safety ceiling.
    InsufficientLiquidity,
    /// A realized or configured slippage bound was violated.
    SlippageExceeded,
    /// No route within the hop bound, or an unsupported asset.
    InvalidPath,
    /// An execution-time failure that forced a rollback.
    SwapFailed,
    /// An operation on an asset outside the supported set, where the
    /// supported set is required.
    UnauthorizedAsset,
}

} // verus!
