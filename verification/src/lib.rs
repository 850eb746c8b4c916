//! A multi-asset swap router: given a source asset, a destination asset and
//! an input amount, it finds the best exchange route across registered
//! liquidity venues, executes the trade atomically against a ledger of
//! balances, and enforces slippage and liquidity safety bounds.

pub mod errors;
pub mod ledger;
pub mod path;
pub mod router;
pub mod slippage;
pub mod venue;
