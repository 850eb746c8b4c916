use vstd::prelude::*;
use vstd::arithmetic::mul::lemma_mul_upper_bound;
use crate::errors::Error;
use crate::venue::{BPS_DENOM, lemma_mul_div_le};

verus! {

/// Highest configurable slippage tolerance, in basis points.
pub const MAX_SLIPPAGE_TOLERANCE_BPS: u64 = 1_000;

/// The least acceptable realized output for a quoted output of `quoted`
/// under a tolerance of `tol_bps` basis points.
pub open spec fn tol_floor(quoted: int, tol_bps: int) -> int {
    quoted * ((BPS_DENOM as int) - tol_bps) / (BPS_DENOM as int)
}

/// The tolerance floor never exceeds the quoted amount itself.
pub proof fn lemma_tol_floor_le(quoted: int, tol_bps: int)
    requires
        0 <= quoted,
        0 <= tol_bps <= BPS_DENOM,
    ensures
        tol_floor(quoted, tol_bps) <= quoted,
{
    lemma_mul_div_le(quoted, (BPS_DENOM as int) - tol_bps, BPS_DENOM as int);
}

/// Compute the tolerance floor of a quoted output.
pub fn compute_tol_floor(quoted: u64, tol_bps: u64) -> (r: u64)
    requires
        tol_bps <= BPS_DENOM,
    ensures
        r == tol_floor(quoted as int, tol_bps as int),
{
    proof {
        lemma_mul_upper_bound(quoted as int, u64::MAX as int, (BPS_DENOM - tol_bps) as int, BPS_DENOM as int);
        lemma_mul_div_le(quoted as int, (BPS_DENOM - tol_bps) as int, BPS_DENOM as int);
    }
    let wide: u128 = (quoted as u128) * ((BPS_DENOM - tol_bps) as u128) / (BPS_DENOM as u128);
    wide as u64
}

/// The slippage guard.  Two independent bounds must both hold of a
/// realized output: the caller's absolute floor `min_amount_out`, and the
/// configured tolerance relative to the pre-execution quote `quoted_out`,
/// which protects against price movement between quoting and settlement.
pub fn check_slippage(amount_out: u64, min_amount_out: u64, quoted_out: u64, tol_bps: u64) -> (r:
    Result<(), Error>)
    requires
        tol_bps <= BPS_DENOM,
    ensures
        r is Ok <==> (amount_out >= min_amount_out && amount_out >= tol_floor(
            quoted_out as int,
            tol_bps as int,
        )),
        r is Err ==> r == Err::<(), Error>(Error::SlippageExceeded),
{
    if amount_out < min_amount_out {
        return Err(Error::SlippageExceeded);
    }
    let floor = compute_tol_floor(quoted_out, tol_bps);
    if amount_out < floor {
        return Err(Error::SlippageExceeded);
    }
    Ok(())
}

} // verus!
