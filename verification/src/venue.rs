use vstd::prelude::*;
use vstd::arithmetic::div_mod::{lemma_div_is_ordered, lemma_div_by_multiple};
use vstd::arithmetic::mul::{lemma_mul_inequality, lemma_mul_upper_bound};
use crate::errors::Error;

verus! {

/// Fixed-point scale for venue exchange rates: a rate equal to `RATE_ONE`
/// converts one input unit into one gross output unit.
pub const RATE_ONE: u64 = 1_000_000;

/// Largest accepted exchange rate: ten thousand output units per input unit.
pub const RATE_MAX: u64 = 10_000_000_000;

/// Basis-point denominator: 10000 bps = 100%.
pub const BPS_DENOM: u64 = 10_000;

/// A hop whose price impact is above this ceiling is rejected outright,
/// independent of the caller's slippage tolerance, so that one catastrophic
/// hop cannot be masked by averaging over a multi-hop path.
pub const HOP_IMPACT_CEILING_BPS: u64 = 1_000;

/// One liquidity venue: a directed edge of the asset graph able to quote
/// and execute a single-pair exchange.  Its fields are the live state the
/// quote oracle reads: the current exchange rate (scaled by `RATE_ONE`),
/// the venue's trading fee in basis points, and the depth of its
/// liquidity, which determines the price impact of a trade of given size.
#[derive(Clone, Copy, Debug, PartialEq, Eq)]
pub struct Venue {
    pub asset_in: u32,
    pub asset_out: u32,
    pub rate: u64,
    pub fee_bps: u64,
    pub liquidity: u64,
}

/// A venue is well formed when its rate is positive and bounded, its fee
/// is at most 100%, it has positive depth, and it connects two distinct
/// assets.
pub open spec fn venue_wf(v: Venue) -> bool {
    &&& 1 <= v.rate <= RATE_MAX
    &&& v.fee_bps <= BPS_DENOM
    &&& 1 <= v.liquidity
    &&& v.asset_in != v.asset_out
}

pub open spec fn venues_wf(vs: Seq<Venue>) -> bool {
    forall|i: int| 0 <= i < vs.len() ==> venue_wf(#[trigger] vs[i])
}

/// Gross output of a hop before the venue's fee.
pub open spec fn hop_gross(v: Venue, amount_in: int) -> int {
    amount_in * v.rate / (RATE_ONE as int)
}

/// The venue's fee, taken from the gross output.
pub open spec fn hop_fee(v: Venue, amount_in: int) -> int {
    hop_gross(v, amount_in) * v.fee_bps / (BPS_DENOM as int)
}

/// Net output of a hop: gross output minus the venue's fee.
pub open spec fn hop_net(v: Venue, amount_in: int) -> int {
    hop_gross(v, amount_in) - hop_fee(v, amount_in)
}

/// Price impact of a trade of this size against the venue's depth, in
/// basis points.
pub open spec fn hop_impact(v: Venue, amount_in: int) -> int {
    amount_in * (BPS_DENOM as int) / (v.liquidity as int)
}

/// A hop is viable when its net output is positive and representable and
/// its price impact stays at or below the safety ceiling.
pub open spec fn hop_allowed(v: Venue, amount_in: int) -> bool {
    &&& hop_gross(v, amount_in) <= u64::MAX
    &&& 1 <= hop_net(v, amount_in)
    &&& hop_impact(v, amount_in) <= HOP_IMPACT_CEILING_BPS
}

/// What a viable hop returns: net output, fee paid, and price impact in
/// basis points.  A hop that is not viable has no quote.
pub open spec fn hop_quote(v: Venue, amount_in: int) -> Option<(int, int, int)> {
    if hop_allowed(v, amount_in) {
        Some(
            (hop_net(v, amount_in), hop_fee(v, amount_in), hop_impact(v, amount_in)),
        )
    } else {
        None
    }
}

/// Multiplying by a fraction `f / d` with `f <= d` never increases a
/// non-negative quantity.
pub proof fn lemma_mul_div_le(g: int, f: int, d: int)
    requires
        0 <= g,
        0 <= f <= d,
        1 <= d,
    ensures
        g * f / d <= g,
{
    lemma_mul_inequality(f, d, g);
    lemma_div_is_ordered(g * f, g * d, d);
    lemma_div_by_multiple(g, d);
}

/// Compute one hop's quote from the venue's live state: the net output
/// amount, the fee paid, and the price impact in basis points.  This is
/// the single pricing rule shared by path discovery, previews and
/// execution.
pub fn quote_hop(v: &Venue, amount_in: u64) -> (r: Result<(u64, u64, u64), Error>)
    requires
        venue_wf(*v),
    ensures
        match r {
            Ok(q) => hop_quote(*v, amount_in as int) == Some(
                (q.0 as int, q.1 as int, q.2 as int),
            ),
            Err(e) => e == Error::InsufficientLiquidity && hop_quote(
                *v,
                amount_in as int,
            ) is None,
        },
{
    proof {
        lemma_mul_upper_bound(amount_in as int, u64::MAX as int, v.rate as int, RATE_MAX as int);
        lemma_mul_upper_bound(amount_in as int, u64::MAX as int, BPS_DENOM as int, BPS_DENOM as int);
    }
    let gross_wide: u128 = (amount_in as u128) * (v.rate as u128) / (RATE_ONE as u128);
    let impact_wide: u128 = (amount_in as u128) * (BPS_DENOM as u128) / (v.liquidity as u128);
    if gross_wide > u64::MAX as u128 {
        return Err(Error::InsufficientLiquidity);
    }
    proof {
        lemma_mul_upper_bound(gross_wide as int, u64::MAX as int, v.fee_bps as int, BPS_DENOM as int);
        lemma_mul_div_le(gross_wide as int, v.fee_bps as int, BPS_DENOM as int);
    }
    let fee_wide: u128 = gross_wide * (v.fee_bps as u128) / (BPS_DENOM as u128);
    let net_wide: u128 = gross_wide - fee_wide;
    if net_wide == 0 {
        return Err(Error::InsufficientLiquidity);
    }
    if impact_wide > HOP_IMPACT_CEILING_BPS as u128 {
        return Err(Error::InsufficientLiquidity);
    }
    Ok((net_wide as u64, fee_wide as u64, impact_wide as u64))
}

} // verus!
