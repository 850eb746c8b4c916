use multi_asset_router::errors::Error;
use multi_asset_router::path::{Hop, SwapPath};
use multi_asset_router::router::MultiAssetRouter;

const ADMIN: u32 = 1;
const PAYER: u32 = 10;
const RECIPIENT: u32 = 20;
const ASSET_A: u32 = 101;
const ASSET_B: u32 = 102;
const ASSET_C: u32 = 103;

const RATE_ONE: u64 = 1_000_000;

fn router_with_assets(assets: &[u32]) -> MultiAssetRouter {
    let mut r = MultiAssetRouter::new(ADMIN);
    for a in assets {
        r.add_supported_asset(ADMIN, *a).unwrap();
    }
    r
}

#[test]
fn same_asset_swap_is_identity() {
    let mut r = router_with_assets(&[ASSET_A]);
    assert!(r.ledger.deposit(PAYER, ASSET_A, 5_000));
    let res = r
        .execute_swap(PAYER, ASSET_A, ASSET_A, 1_000, 900, PAYER, RECIPIENT)
        .unwrap();
    assert_eq!(res.amount_out, 1_000);
    assert_eq!(res.fees_paid, 0);
    assert_eq!(res.price_impact, 0);
    assert_eq!(r.ledger.balance_of(PAYER, ASSET_A), 4_000);
    assert_eq!(r.ledger.balance_of(RECIPIENT, ASSET_A), 1_000);
}

#[test]
fn same_asset_needs_no_registration() {
    let mut r = MultiAssetRouter::new(ADMIN);
    assert!(r.ledger.deposit(PAYER, ASSET_C, 10));
    let res = r
        .execute_swap(PAYER, ASSET_C, ASSET_C, 10, 0, PAYER, RECIPIENT)
        .unwrap();
    assert_eq!(res.amount_out, 10);
}

#[test]
fn zero_amount_fails_before_any_transfer() {
    let mut r = router_with_assets(&[ASSET_A, ASSET_B]);
    assert!(r.ledger.deposit(PAYER, ASSET_A, 5_000));
    let err = r
        .execute_swap(PAYER, ASSET_A, ASSET_B, 0, 0, PAYER, RECIPIENT)
        .unwrap_err();
    assert_eq!(err, Error::InvalidAsset);
    assert_eq!(r.ledger.balance_of(PAYER, ASSET_A), 5_000);
    assert_eq!(r.ledger.balance_of(RECIPIENT, ASSET_B), 0);
}

#[test]
fn unsupported_asset_is_invalid_path() {
    let mut r = router_with_assets(&[ASSET_A]);
    assert!(r.ledger.deposit(PAYER, ASSET_A, 5_000));
    let err = r
        .execute_swap(PAYER, ASSET_A, ASSET_B, 1_000, 0, PAYER, RECIPIENT)
        .unwrap_err();
    assert_eq!(err, Error::InvalidPath);
}

#[test]
fn single_hop_quote_formula() {
    // rate 2.0, fee 30 bps, depth 100_000:
    // gross = 1000 * 2 = 2000; fee = 2000 * 30 / 10000 = 6; net = 1994;
    // impact = 1000 * 10000 / 100_000 = 100 bps.
    let mut r = router_with_assets(&[ASSET_A, ASSET_B]);
    r.add_venue(ADMIN, ASSET_A, ASSET_B, 2 * RATE_ONE, 30, 100_000)
        .unwrap();
    let q = r.get_swap_quote(ASSET_A, ASSET_B, 1_000).unwrap();
    assert_eq!(q.amount_out, 1_994);
    assert_eq!(q.fees_paid, 6);
    assert_eq!(q.price_impact, 100);
}

#[test]
fn estimate_matches_quote() {
    let mut r = router_with_assets(&[ASSET_A, ASSET_B]);
    r.add_venue(ADMIN, ASSET_A, ASSET_B, 2 * RATE_ONE, 30, 100_000)
        .unwrap();
    let q = r.get_swap_quote(ASSET_A, ASSET_B, 1_000).unwrap();
    let est = r.estimate_swap_output(ASSET_A, ASSET_B, 1_000).unwrap();
    assert_eq!(est, q.amount_out);
}

#[test]
fn quote_and_execution_agree_under_unchanged_state() {
    let mut r = router_with_assets(&[ASSET_A, ASSET_B, ASSET_C]);
    r.add_venue(ADMIN, ASSET_A, ASSET_B, 2 * RATE_ONE, 30, 100_000)
        .unwrap();
    r.add_venue(ADMIN, ASSET_A, ASSET_C, 3 * RATE_ONE / 2, 0, 1_000_000)
        .unwrap();
    r.add_venue(ADMIN, ASSET_C, ASSET_B, 3 * RATE_ONE / 2, 0, 1_000_000)
        .unwrap();
    assert!(r.ledger.deposit(PAYER, ASSET_A, 5_000));
    let q = r.get_swap_quote(ASSET_A, ASSET_B, 1_000).unwrap();
    let res = r
        .execute_swap(PAYER, ASSET_A, ASSET_B, 1_000, 0, PAYER, RECIPIENT)
        .unwrap();
    assert_eq!(res.amount_out, q.amount_out);
    assert_eq!(res.fees_paid, q.fees_paid);
    assert_eq!(res.price_impact, q.price_impact);
}

#[test]
fn router_chooses_higher_net_output() {
    // Direct A->B yields 1994; the two-hop A->C->B chain yields
    // 1000 * 1.5 = 1500, then 1500 * 1.5 = 2250, with no fees.
    let mut r = router_with_assets(&[ASSET_A, ASSET_B, ASSET_C]);
    r.add_venue(ADMIN, ASSET_A, ASSET_B, 2 * RATE_ONE, 30, 100_000)
        .unwrap();
    r.add_venue(ADMIN, ASSET_A, ASSET_C, 3 * RATE_ONE / 2, 0, 1_000_000)
        .unwrap();
    r.add_venue(ADMIN, ASSET_C, ASSET_B, 3 * RATE_ONE / 2, 0, 1_000_000)
        .unwrap();
    assert!(r.ledger.deposit(PAYER, ASSET_A, 5_000));
    let res = r
        .execute_swap(PAYER, ASSET_A, ASSET_B, 1_000, 950, PAYER, RECIPIENT)
        .unwrap();
    assert_eq!(res.amount_out, 2_250);
    assert!(res.amount_out >= 950);
    assert_eq!(r.ledger.balance_of(PAYER, ASSET_A), 4_000);
    assert_eq!(r.ledger.balance_of(RECIPIENT, ASSET_B), 2_250);
}

#[test]
fn router_prefers_direct_route_when_better() {
    // Direct A->B yields 2500 with no fee; the chain yields 2250.
    let mut r = router_with_assets(&[ASSET_A, ASSET_B, ASSET_C]);
    r.add_venue(ADMIN, ASSET_A, ASSET_B, 5 * RATE_ONE / 2, 0, 1_000_000)
        .unwrap();
    r.add_venue(ADMIN, ASSET_A, ASSET_C, 3 * RATE_ONE / 2, 0, 1_000_000)
        .unwrap();
    r.add_venue(ADMIN, ASSET_C, ASSET_B, 3 * RATE_ONE / 2, 0, 1_000_000)
        .unwrap();
    let p = r.find_optimal_path(ASSET_A, ASSET_B, 1_000).unwrap();
    assert_eq!(p.hops.len(), 1);
    assert_eq!(p.quoted_out, 2_500);
}

#[test]
fn equal_output_prefers_fewer_hops() {
    // Both routes yield exactly 2250: tie broken toward the direct hop.
    let mut r = router_with_assets(&[ASSET_A, ASSET_B, ASSET_C]);
    r.add_venue(ADMIN, ASSET_A, ASSET_C, 3 * RATE_ONE / 2, 0, 1_000_000)
        .unwrap();
    r.add_venue(ADMIN, ASSET_C, ASSET_B, 3 * RATE_ONE / 2, 0, 1_000_000)
        .unwrap();
    r.add_venue(ADMIN, ASSET_A, ASSET_B, 9 * RATE_ONE / 4, 0, 1_000_000)
        .unwrap();
    let p = r.find_optimal_path(ASSET_A, ASSET_B, 1_000).unwrap();
    assert_eq!(p.quoted_out, 2_250);
    assert_eq!(p.hops.len(), 1);
}

#[test]
fn path_never_longer_than_max_hops() {
    // The only A->B connectivity needs four hops; the default bound is 3.
    let x1: u32 = 201;
    let x2: u32 = 202;
    let x3: u32 = 203;
    let mut r = router_with_assets(&[ASSET_A, ASSET_B, x1, x2, x3]);
    r.add_venue(ADMIN, ASSET_A, x1, RATE_ONE, 0, 1_000_000).unwrap();
    r.add_venue(ADMIN, x1, x2, RATE_ONE, 0, 1_000_000).unwrap();
    r.add_venue(ADMIN, x2, x3, RATE_ONE, 0, 1_000_000).unwrap();
    r.add_venue(ADMIN, x3, ASSET_B, RATE_ONE, 0, 1_000_000).unwrap();
    let err = r.find_optimal_path(ASSET_A, ASSET_B, 1_000).unwrap_err();
    assert_eq!(err, Error::InvalidPath);
    // A three-hop route is within the bound.
    r.add_venue(ADMIN, x2, ASSET_B, RATE_ONE, 0, 1_000_000).unwrap();
    let p = r.find_optimal_path(ASSET_A, ASSET_B, 1_000).unwrap();
    assert!(p.hops.len() <= 3);
    assert_eq!(p.hops.len(), 3);
}

#[test]
fn no_connectivity_is_invalid_path() {
    let r = router_with_assets(&[ASSET_A, ASSET_B]);
    let err = r.find_optimal_path(ASSET_A, ASSET_B, 1_000).unwrap_err();
    assert_eq!(err, Error::InvalidPath);
}

#[test]
fn slippage_floor_rejection_rolls_back() {
    let mut r = router_with_assets(&[ASSET_A, ASSET_B]);
    r.add_venue(ADMIN, ASSET_A, ASSET_B, 2 * RATE_ONE, 30, 100_000)
        .unwrap();
    assert!(r.ledger.deposit(PAYER, ASSET_A, 5_000));
    // Quote is 1994; demand more than the route can deliver.
    let err = r
        .execute_swap(PAYER, ASSET_A, ASSET_B, 1_000, 2_000, PAYER, RECIPIENT)
        .unwrap_err();
    assert_eq!(err, Error::SlippageExceeded);
    assert_eq!(r.ledger.balance_of(PAYER, ASSET_A), 5_000);
    assert_eq!(r.ledger.balance_of(RECIPIENT, ASSET_B), 0);
}

#[test]
fn insufficient_balance_fails_swap() {
    let mut r = router_with_assets(&[ASSET_A, ASSET_B]);
    r.add_venue(ADMIN, ASSET_A, ASSET_B, 2 * RATE_ONE, 30, 100_000)
        .unwrap();
    assert!(r.ledger.deposit(PAYER, ASSET_A, 500));
    let err = r
        .execute_swap(PAYER, ASSET_A, ASSET_B, 1_000, 0, PAYER, RECIPIENT)
        .unwrap_err();
    assert_eq!(err, Error::SwapFailed);
    assert_eq!(r.ledger.balance_of(PAYER, ASSET_A), 500);
}

#[test]
fn excessive_price_impact_is_insufficient_liquidity() {
    // Depth 5_000 gives 1000 * 10000 / 5000 = 2000 bps of impact,
    // above the 1000 bps ceiling: the hop has no quote.
    let mut r = router_with_assets(&[ASSET_A, ASSET_B]);
    r.add_venue(ADMIN, ASSET_A, ASSET_B, 2 * RATE_ONE, 30, 5_000)
        .unwrap();
    assert!(r.ledger.deposit(PAYER, ASSET_A, 5_000));
    // The pair is connected, but the only hop is over the ceiling: the
    // routed entry points fail with InsufficientLiquidity, no funds move.
    let err = r
        .execute_swap(PAYER, ASSET_A, ASSET_B, 1_000, 0, PAYER, RECIPIENT)
        .unwrap_err();
    assert_eq!(err, Error::InsufficientLiquidity);
    let err = r.find_optimal_path(ASSET_A, ASSET_B, 1_000).unwrap_err();
    assert_eq!(err, Error::InsufficientLiquidity);
    assert_eq!(r.ledger.balance_of(PAYER, ASSET_A), 5_000);
    assert_eq!(r.ledger.balance_of(RECIPIENT, ASSET_B), 0);
    // Executing a pre-built path across the same venue fails the hop
    // itself with InsufficientLiquidity, and no funds move.
    let path = SwapPath {
        from_asset: ASSET_A,
        to_asset: ASSET_B,
        amount_in: 1_000,
        min_amount_out: 0,
        quoted_out: 1_994,
        hops: vec![Hop { asset_in: ASSET_A, asset_out: ASSET_B, venue: 0, quoted_out: 1_994 }],
    };
    let err = r.execute_swap_path(PAYER, &path, PAYER, RECIPIENT).unwrap_err();
    assert_eq!(err, Error::InsufficientLiquidity);
    assert_eq!(r.ledger.balance_of(PAYER, ASSET_A), 5_000);
    assert_eq!(r.ledger.balance_of(RECIPIENT, ASSET_B), 0);
}

#[test]
fn stale_quote_beyond_tolerance_rolls_back() {
    // The recorded hop quote is twice what the venue now delivers: the
    // re-quote falls below the tolerance floor and the swap rolls back.
    let mut r = router_with_assets(&[ASSET_A, ASSET_B]);
    r.add_venue(ADMIN, ASSET_A, ASSET_B, RATE_ONE, 0, 1_000_000).unwrap();
    assert!(r.ledger.deposit(PAYER, ASSET_A, 5_000));
    let path = SwapPath {
        from_asset: ASSET_A,
        to_asset: ASSET_B,
        amount_in: 1_000,
        min_amount_out: 0,
        quoted_out: 2_000,
        hops: vec![Hop { asset_in: ASSET_A, asset_out: ASSET_B, venue: 0, quoted_out: 2_000 }],
    };
    let err = r.execute_swap_path(PAYER, &path, PAYER, RECIPIENT).unwrap_err();
    assert_eq!(err, Error::SlippageExceeded);
    assert_eq!(r.ledger.balance_of(PAYER, ASSET_A), 5_000);
    assert_eq!(r.ledger.balance_of(RECIPIENT, ASSET_B), 0);
}

#[test]
fn fresh_path_executes_exactly_as_quoted() {
    let mut r = router_with_assets(&[ASSET_A, ASSET_B]);
    r.add_venue(ADMIN, ASSET_A, ASSET_B, 2 * RATE_ONE, 30, 100_000)
        .unwrap();
    assert!(r.ledger.deposit(PAYER, ASSET_A, 5_000));
    let path = r.find_optimal_path(ASSET_A, ASSET_B, 1_000).unwrap();
    assert_eq!(path.quoted_out, 1_994);
    let res = r.execute_swap_path(PAYER, &path, PAYER, RECIPIENT).unwrap();
    assert_eq!(res.amount_out, 1_994);
    assert_eq!(r.ledger.balance_of(PAYER, ASSET_A), 4_000);
    assert_eq!(r.ledger.balance_of(RECIPIENT, ASSET_B), 1_994);
}

#[test]
fn set_slippage_tolerance_validates_range() {
    let mut r = MultiAssetRouter::new(ADMIN);
    assert_eq!(r.get_slippage_tolerance(), 100);
    let err = r.set_slippage_tolerance(ADMIN, 1_001).unwrap_err();
    assert_eq!(err, Error::InvalidAsset);
    assert_eq!(r.get_slippage_tolerance(), 100);
    r.set_slippage_tolerance(ADMIN, 1_000).unwrap();
    assert_eq!(r.get_slippage_tolerance(), 1_000);
    r.set_slippage_tolerance(ADMIN, 0).unwrap();
    assert_eq!(r.get_slippage_tolerance(), 0);
}

#[test]
fn add_supported_asset_is_idempotent() {
    let mut r = MultiAssetRouter::new(ADMIN);
    assert!(!r.is_asset_supported(ASSET_A));
    r.add_supported_asset(ADMIN, ASSET_A).unwrap();
    assert!(r.is_asset_supported(ASSET_A));
    r.add_supported_asset(ADMIN, ASSET_A).unwrap();
    assert!(r.is_asset_supported(ASSET_A));
    assert!(!r.is_asset_supported(ASSET_B));
}

#[test]
fn add_venue_validates_parameters() {
    let mut r = MultiAssetRouter::new(ADMIN);
    // Fee above 100% is rejected.
    let err = r
        .add_venue(ADMIN, ASSET_A, ASSET_B, RATE_ONE, 10_001, 1_000)
        .unwrap_err();
    assert_eq!(err, Error::InvalidAsset);
    // Zero depth is rejected.
    let err = r.add_venue(ADMIN, ASSET_A, ASSET_B, RATE_ONE, 0, 0).unwrap_err();
    assert_eq!(err, Error::InvalidAsset);
    // A venue must connect two distinct assets.
    let err = r
        .add_venue(ADMIN, ASSET_A, ASSET_A, RATE_ONE, 0, 1_000)
        .unwrap_err();
    assert_eq!(err, Error::InvalidAsset);
    // A well-formed venue is assigned the next registry index.
    let idx = r.add_venue(ADMIN, ASSET_A, ASSET_B, RATE_ONE, 0, 1_000).unwrap();
    assert_eq!(idx, 0);
    let idx = r.add_venue(ADMIN, ASSET_B, ASSET_A, RATE_ONE, 0, 1_000).unwrap();
    assert_eq!(idx, 1);
}

#[test]
fn dust_trade_with_total_fee_has_no_output() {
    // One unit at rate 1.0 with a 100% fee nets zero: the pair is
    // connected but the hop has no viable quote.
    let mut r = router_with_assets(&[ASSET_A, ASSET_B]);
    r.add_venue(ADMIN, ASSET_A, ASSET_B, RATE_ONE, 10_000, 1_000_000)
        .unwrap();
    let err = r.get_swap_quote(ASSET_A, ASSET_B, 1).unwrap_err();
    assert_eq!(err, Error::InsufficientLiquidity);
    let err = r.estimate_swap_output(ASSET_A, ASSET_B, 1).unwrap_err();
    assert_eq!(err, Error::InsufficientLiquidity);
}

#[test]
fn ledger_transfer_is_atomic() {
    let mut r = MultiAssetRouter::new(ADMIN);
    assert!(r.ledger.deposit(PAYER, ASSET_A, 100));
    assert!(r.ledger.deposit(RECIPIENT, ASSET_A, u64::MAX - 50));
    // Crediting the recipient would overflow: nothing moves.
    assert!(!r.ledger.transfer(PAYER, RECIPIENT, ASSET_A, 100));
    assert_eq!(r.ledger.balance_of(PAYER, ASSET_A), 100);
    assert_eq!(r.ledger.balance_of(RECIPIENT, ASSET_A), u64::MAX - 50);
    // A transfer within balance succeeds exactly.
    assert!(r.ledger.transfer(PAYER, RECIPIENT, ASSET_A, 50));
    assert_eq!(r.ledger.balance_of(PAYER, ASSET_A), 50);
    assert_eq!(r.ledger.balance_of(RECIPIENT, ASSET_A), u64::MAX);
}
