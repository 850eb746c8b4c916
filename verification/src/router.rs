use vstd::prelude::*;
use vstd::math::max;
use std::collections::HashSet;
use vstd::arithmetic::mul::lemma_mul_inequality;
use crate::errors::Error;
use crate::ledger::{Balances, bal_of, same_balances};
use crate::path::{
    Hop, SwapPath, hops_linked, path_wf, eval_from, run_from, best_route, route_exists, cand_abs,
    search_route, venues_connected, lemma_best_route_complete, lemma_best_route_upto_props,
    lemma_eval_run, lemma_run_bounds, lemma_hop_quote_bounds,
};
use crate::slippage::{
    tol_floor, lemma_tol_floor_le, compute_tol_floor, check_slippage, MAX_SLIPPAGE_TOLERANCE_BPS,
};
use crate::venue::{
    Venue, venue_wf, venues_wf, quote_hop, RATE_MAX, BPS_DENOM, HOP_IMPACT_CEILING_BPS,
};

verus! {

broadcast use vstd::std_specs::hash::group_hash_axioms;

/// Default slippage tolerance at deployment: 1% (100 basis points).
pub const DEFAULT_SLIPPAGE_TOLERANCE_BPS: u64 = 100;

/// Default bound on the number of hops of a path.
pub const DEFAULT_MAX_HOPS: u32 = 3;

/// Admin-controlled router parameters: the slippage tolerance, the hop
/// bound, and the set of assets the router is willing to route through.
pub struct RouterConfig {
    pub slippage_tolerance_bps: u64,
    pub max_hops: u32,
    pub supported_assets: HashSet<u32>,
}

/// The outcome of a fully successful swap: the delivered amount, the
/// worst price impact observed across the hops (in basis points), and
/// the venue fees paid over the whole path.
#[derive(Clone, Copy, Debug, PartialEq, Eq)]
pub struct SwapResult {
    pub amount_out: u64,
    pub price_impact: u64,
    pub fees_paid: u128,
}

/// The mathematical state of the router: its admin, its configuration,
/// its venue registry, and the ledger of balances it settles against.
pub struct RouterView {
    pub admin: u32,
    pub tol_bps: int,
    pub max_hops: int,
    pub supported: Set<u32>,
    pub venues: Seq<Venue>,
    pub ledger: Map<u64, u64>,
}

/// The multi-asset swap router.  It owns the registry of supported
/// assets and venues and the admin-controlled configuration, and it
/// settles executed swaps against a ledger of balances.
pub struct MultiAssetRouter {
    pub admin: u32,
    pub config: RouterConfig,
    pub venues: Vec<Venue>,
    pub ledger: Balances,
}

impl View for MultiAssetRouter {
    type V = RouterView;

    open spec fn view(&self) -> RouterView {
        RouterView {
            admin: self.admin,
            tol_bps: self.config.slippage_tolerance_bps as int,
            max_hops: self.config.max_hops as int,
            supported: self.config.supported_assets@,
            venues: self.venues@,
            ledger: self.ledger@,
        }
    }
}

/// The router's invariant: the tolerance is within its admissible range,
/// at least one hop is allowed, and every registered venue is well
/// formed.
pub open spec fn router_wf(v: RouterView) -> bool {
    &&& 0 <= v.tol_bps <= MAX_SLIPPAGE_TOLERANCE_BPS
    &&& 1 <= v.max_hops
    &&& venues_wf(v.venues)
}

/// What a preview of a swap reports: the output amount, the price
/// impact and the fees of the best route, under the same pricing rules
/// execution uses.  A same-asset request is a direct transfer: its
/// output equals its input and it carries no fee and no impact.  An
/// unsupported end, or an asset graph with no chain at all within the
/// hop bound, is InvalidPath; a graph that does connect the pair while
/// every chain is blocked by the quoting rules (no positive output, or
/// price impact above the safety ceiling) is InsufficientLiquidity.
pub open spec fn quote_outcome(v: RouterView, from: u32, to: u32, amount_in: int) -> Result<
    (int, int, int),
    Error,
> {
    if amount_in <= 0 {
        Err(Error::InvalidAsset)
    } else if from == to {
        Ok((amount_in, 0, 0))
    } else if !v.supported.contains(from) || !v.supported.contains(to) {
        Err(Error::InvalidPath)
    } else {
        match best_route(v.venues, from, to, amount_in, v.max_hops) {
            None => if route_exists(v.venues, from, to, v.max_hops) {
                Err(Error::InsufficientLiquidity)
            } else {
                Err(Error::InvalidPath)
            },
            Some(c) => Ok((c.1, c.3, c.2)),
        }
    }
}

/// The balance of `a` in asset `t` after a swap settles: the input
/// amount leaves the payer's source-asset balance and the output amount
/// reaches the recipient's destination-asset balance.
pub open spec fn swap_settled_bal(
    l: Map<u64, u64>,
    a: u32,
    t: u32,
    from: u32,
    to: u32,
    payer: u32,
    recipient: u32,
    amount_in: int,
    out: int,
) -> int {
    bal_of(l, a, t) - (if a == payer && t == from {
        amount_in
    } else {
        0
    }) + (if a == recipient && t == to {
        out
    } else {
        0
    })
}

/// The recipient's destination-asset balance once the input amount is
/// held in escrow.
pub open spec fn escrowed_recipient_bal(
    l: Map<u64, u64>,
    from: u32,
    to: u32,
    payer: u32,
    recipient: u32,
    amount_in: int,
) -> int {
    if recipient == payer && to == from {
        bal_of(l, payer, from) - amount_in
    } else {
        bal_of(l, recipient, to)
    }
}

/// The outcome of executing a given path: fail while the payer cannot
/// fund the escrow; then run the hops against live quotes; then hold the
/// realized output to the path's slippage floor; then settle, failing if
/// the credited balance would not be representable.
pub open spec fn path_run_outcome(v: RouterView, p: SwapPath, payer: u32, recipient: u32) -> Result<
    (int, int, int),
    Error,
> {
    if bal_of(v.ledger, payer, p.from_asset) < p.amount_in {
        Err(Error::SwapFailed)
    } else {
        match run_from(v.venues, p.hops@, 0, p.amount_in as int, v.tol_bps) {
            Err(e) => Err(e),
            Ok(rest) => {
                if rest.0 < p.min_amount_out || rest.0 < tol_floor(p.quoted_out as int, v.tol_bps) {
                    Err(Error::SlippageExceeded)
                } else if escrowed_recipient_bal(
                    v.ledger,
                    p.from_asset,
                    p.to_asset,
                    payer,
                    recipient,
                    p.amount_in as int,
                ) + rest.0 > u64::MAX {
                    Err(Error::SwapFailed)
                } else {
                    Ok(rest)
                }
            },
        }
    }
}

/// The outcome of a whole swap request: the preview outcome, then the
/// escrow, the caller's floor, and the settlement check, in the order
/// execution performs them.
pub open spec fn swap_outcome(
    v: RouterView,
    from: u32,
    to: u32,
    amount_in: int,
    min_out: int,
    payer: u32,
    recipient: u32,
) -> Result<(int, int, int), Error> {
    match quote_outcome(v, from, to, amount_in) {
        Err(e) => Err(e),
        Ok(q) => if bal_of(v.ledger, payer, from) < amount_in {
            Err(Error::SwapFailed)
        } else if q.0 < min_out {
            Err(Error::SlippageExceeded)
        } else if escrowed_recipient_bal(v.ledger, from, to, payer, recipient, amount_in) + q.0
            > u64::MAX {
            Err(Error::SwapFailed)
        } else {
            Ok(q)
        },
    }
}

/// Preview consistency: while venue state is unchanged, a successful
/// execution reports exactly what the read-only quote reports, and in
/// particular the same output amount.
pub proof fn lemma_preview_matches_execution(
    v: RouterView,
    from: u32,
    to: u32,
    amount_in: int,
    min_out: int,
    payer: u32,
    recipient: u32,
)
    requires
        swap_outcome(v, from, to, amount_in, min_out, payer, recipient) is Ok,
    ensures
        quote_outcome(v, from, to, amount_in) is Ok,
        swap_outcome(v, from, to, amount_in, min_out, payer, recipient)
            == quote_outcome(v, from, to, amount_in),
{
}

/// The router's routing choice is optimal: no linked chain of hops
/// within the configured hop bound delivers a higher net output than the
/// quoted outcome for the same request.
pub proof fn lemma_route_optimal(v: RouterView, from: u32, to: u32, amount_in: int, alt: Seq<Hop>)
    requires
        router_wf(v),
        v.venues.len() <= usize::MAX,
        1 <= amount_in <= u64::MAX,
        from != to,
        v.supported.contains(from),
        v.supported.contains(to),
        hops_linked(v.venues, alt, from, to),
        1 <= alt.len() <= v.max_hops,
        eval_from(v.venues, alt, 0, amount_in) is Some,
    ensures
        quote_outcome(v, from, to, amount_in) is Ok,
        quote_outcome(v, from, to, amount_in).unwrap().0 >= eval_from(
            v.venues,
            alt,
            0,
            amount_in,
        ).unwrap().0,
{
    lemma_best_route_complete(v.venues, from, to, amount_in, v.max_hops, alt);
}

/// The quoted output is achievable: a successful routed quote is the
/// simulated net output of an actual linked chain within the hop bound.
/// Together with the optimality law this pins the quoted output to the
/// maximum net output over all viable routes.
pub proof fn lemma_route_achievable(v: RouterView, from: u32, to: u32, amount_in: int)
    requires
        router_wf(v),
        v.venues.len() <= usize::MAX,
        1 <= amount_in <= u64::MAX,
        from != to,
        quote_outcome(v, from, to, amount_in) is Ok,
    ensures
        exists|hops: Seq<Hop>|
            {
                &&& hops_linked(v.venues, hops, from, to)
                &&& 1 <= hops.len() <= v.max_hops
                &&& #[trigger] eval_from(v.venues, hops, 0, amount_in) matches Some(pq)
                &&& pq.0 == quote_outcome(v, from, to, amount_in).unwrap().0
            },
{
    lemma_best_route_upto_props(v.venues, v.venues.len() as int, from, to, amount_in, v.max_hops);
    let c = best_route(v.venues, from, to, amount_in, v.max_hops).unwrap();
    assert(eval_from(v.venues, c.0, 0, amount_in) matches Some(pq) && pq.0 == c.1);
}

/// A same-asset request that succeeds delivers exactly its input amount,
/// with zero fees and zero price impact.
pub proof fn lemma_same_asset_identity(
    v: RouterView,
    asset: u32,
    amount_in: int,
    min_out: int,
    payer: u32,
    recipient: u32,
)
    requires
        swap_outcome(v, asset, asset, amount_in, min_out, payer, recipient) is Ok,
    ensures
        swap_outcome(v, asset, asset, amount_in, min_out, payer, recipient) == Ok::<
            (int, int, int),
            Error,
        >((amount_in, 0, 0)),
{
}

/// Execute a path's hops in order, with the escrowed input as the held
/// amount: each hop is re-quoted against the venue's live state, held to
/// the tolerance floor of its discovery-time quote, and converted.
/// Returns the final output, the total fees, and the worst impact.
fn run_hops(venues: &Vec<Venue>, hops: &Vec<Hop>, amount_in: u64, tol_bps: u64) -> (r: Result<
    (u64, u128, u64),
    Error,
>)
    requires
        venues_wf(venues@),
        1 <= amount_in,
        tol_bps <= BPS_DENOM,
        forall|j: int| 0 <= j < hops@.len() ==> (#[trigger] hops@[j]).venue < venues@.len(),
    ensures
        match r {
            Ok(o) => run_from(venues@, hops@, 0, amount_in as int, tol_bps as int) == Ok::<
                (int, int, int),
                Error,
            >((o.0 as int, o.1 as int, o.2 as int)),
            Err(e) => run_from(venues@, hops@, 0, amount_in as int, tol_bps as int) == Err::<
                (int, int, int),
                Error,
            >(e),
        },
{
    let nh = hops.len();
    let mut held: u64 = amount_in;
    let mut fees: u128 = 0;
    let mut impact: u64 = 0;
    let mut i: usize = 0;
    while i < nh
        invariant
            venues_wf(venues@),
            tol_bps <= BPS_DENOM,
            nh == hops@.len(),
            i <= nh,
            1 <= held,
            forall|j: int| 0 <= j < hops@.len() ==> (#[trigger] hops@[j]).venue < venues@.len(),
            fees <= i * (u64::MAX as int),
            impact <= HOP_IMPACT_CEILING_BPS,
            ({
                let full = run_from(venues@, hops@, 0, amount_in as int, tol_bps as int);
                let rest = run_from(venues@, hops@, i as int, held as int, tol_bps as int);
                match rest {
                    Ok(o) => full == Ok::<(int, int, int), Error>(
                        (o.0, fees + o.1, max(impact as int, o.2)),
                    ),
                    Err(e) => full == Err::<(int, int, int), Error>(e),
                }
            }),
        decreases nh - i,
    {
        assert(hops@[i as int].venue < venues@.len());
        let h = hops[i];
        let v = venues[h.venue];
        match quote_hop(&v, held) {
            Err(e) => {
                assert(run_from(venues@, hops@, i as int, held as int, tol_bps as int) == Err::<
                    (int, int, int),
                    Error,
                >(Error::InsufficientLiquidity));
                return Err(e);
            },
            Ok(q) => {
                proof {
                    lemma_hop_quote_bounds(venues@[h.venue as int], held as int);
                }
                let floor = compute_tol_floor(h.quoted_out, tol_bps);
                if q.0 < floor {
                    assert(run_from(venues@, hops@, i as int, held as int, tol_bps as int)
                        == Err::<(int, int, int), Error>(Error::SlippageExceeded));
                    return Err(Error::SlippageExceeded);
                }
                proof {
                    lemma_mul_inequality(
                        i as int + 1,
                        0x1_0000_0000_0000_0000,
                        u64::MAX as int,
                    );
                }
                let ghost held_old: u64 = held;
                fees = fees + (q.1 as u128);
                impact = if q.2 > impact {
                    q.2
                } else {
                    impact
                };
                held = q.0;
                i += 1;
                proof {
                    let rest_new = run_from(
                        venues@,
                        hops@,
                        i as int,
                        held as int,
                        tol_bps as int,
                    );
                    assert(run_from(venues@, hops@, i as int - 1, held_old as int, tol_bps as int)
                        == match rest_new {
                        Ok(o) => Ok::<(int, int, int), Error>(
                            (o.0, q.1 + o.1, max(q.2 as int, o.2)),
                        ),
                        Err(e) => Err::<(int, int, int), Error>(e),
                    });
                }
            },
        }
    }
    Ok((held, fees, impact))
}

impl MultiAssetRouter {
    /// Deploy a router: the given admin, the default configuration, no
    /// supported assets, no venues, and an empty ledger.
    pub fn new(admin: u32) -> (r: MultiAssetRouter)
        ensures
            router_wf(r@),
            r@.admin == admin,
            r@.tol_bps == DEFAULT_SLIPPAGE_TOLERANCE_BPS,
            r@.max_hops == DEFAULT_MAX_HOPS,
            r@.supported == Set::<u32>::empty(),
            r@.venues == Seq::<Venue>::empty(),
            forall|a: u32, t: u32| #[trigger] bal_of(r@.ledger, a, t) == 0,
    {
        MultiAssetRouter {
            admin,
            config: RouterConfig {
                slippage_tolerance_bps: DEFAULT_SLIPPAGE_TOLERANCE_BPS,
                max_hops: DEFAULT_MAX_HOPS,
                supported_assets: HashSet::new(),
            },
            venues: Vec::new(),
            ledger: Balances::new(),
        }
    }

    /// Current slippage tolerance, in basis points.
    pub fn get_slippage_tolerance(&self) -> (r: u64)
        ensures
            r == self@.tol_bps,
    {
        self.config.slippage_tolerance_bps
    }

    /// Set the slippage tolerance (admin only).  A tolerance above 1000
    /// basis points is rejected and the prior configuration is left
    /// unchanged.
    pub fn set_slippage_tolerance(&mut self, caller: u32, tolerance_bps: u64) -> (r: Result<
        (),
        Error,
    >)
        requires
            caller == old(self)@.admin,
            router_wf(old(self)@),
        ensures
            router_wf(final(self)@),
            tolerance_bps > MAX_SLIPPAGE_TOLERANCE_BPS ==> r == Err::<(), Error>(
                Error::InvalidAsset,
            ) && final(self)@ == old(self)@,
            tolerance_bps <= MAX_SLIPPAGE_TOLERANCE_BPS ==> r == Ok::<(), Error>(())
                && final(self)@ == (RouterView { tol_bps: tolerance_bps as int, ..old(self)@ }),
    {
        if tolerance_bps > MAX_SLIPPAGE_TOLERANCE_BPS {
            return Err(Error::InvalidAsset);
        }
        self.config.slippage_tolerance_bps = tolerance_bps;
        Ok(())
    }

    /// Register an asset as supported (admin only).  Idempotent: adding
    /// an already-present asset is a no-op, not an error.
    pub fn add_supported_asset(&mut self, caller: u32, asset: u32) -> (r: Result<(), Error>)
        requires
            caller == old(self)@.admin,
            router_wf(old(self)@),
        ensures
            router_wf(final(self)@),
            r == Ok::<(), Error>(()),
            final(self)@.supported == old(self)@.supported.insert(asset),
            forall|x: u32|
                final(self)@.supported.contains(x) <==> (old(self)@.supported.contains(x) || x
                    == asset),
            final(self)@ == (RouterView { supported: final(self)@.supported, ..old(self)@ }),
    {
        self.config.supported_assets.insert(asset);
        Ok(())
    }

    /// Whether an asset is in the supported set.
    pub fn is_asset_supported(&self, asset: u32) -> (r: bool)
        ensures
            r == self@.supported.contains(asset),
    {
        self.config.supported_assets.contains(&asset)
    }

    /// Register a venue connecting a pair of assets (admin only).  The
    /// venue's parameters must be well formed; on success the new
    /// venue's registry index is returned.
    pub fn add_venue(
        &mut self,
        caller: u32,
        asset_in: u32,
        asset_out: u32,
        rate: u64,
        fee_bps: u64,
        liquidity: u64,
    ) -> (r: Result<usize, Error>)
        requires
            caller == old(self)@.admin,
            router_wf(old(self)@),
        ensures
            router_wf(final(self)@),
            ({
                let v = Venue { asset_in, asset_out, rate, fee_bps, liquidity };
                if venue_wf(v) {
                    &&& r == Ok::<usize, Error>(old(self)@.venues.len() as usize)
                    &&& final(self)@.venues == old(self)@.venues.push(v)
                    &&& final(self)@ == (RouterView { venues: final(self)@.venues, ..old(self)@ })
                } else {
                    &&& r == Err::<usize, Error>(Error::InvalidAsset)
                    &&& final(self)@ == old(self)@
                }
            }),
    {
        if rate < 1 || rate > RATE_MAX || fee_bps > BPS_DENOM || liquidity < 1 || asset_in
            == asset_out {
            return Err(Error::InvalidAsset);
        }
        let v = Venue { asset_in, asset_out, rate, fee_bps, liquidity };
        let idx = self.venues.len();
        self.venues.push(v);
        proof {
            assert forall|j: int| 0 <= j < self@.venues.len() implies venue_wf(
                #[trigger] self@.venues[j],
            ) by {
                if j < old(self)@.venues.len() {
                    assert(venue_wf(old(self)@.venues[j]));
                }
            }
        }
        Ok(idx)
    }

    /// Execute a swap along a specific path, atomically: escrow the
    /// input with the router, run every hop against live quotes, hold
    /// the realized output to both slippage bounds, and settle to the
    /// recipient.  On any failure every transfer of this execution is
    /// reversed, so no partial multi-hop state is observable afterward.
    pub fn execute_swap_path(&mut self, caller: u32, path: &SwapPath, payer: u32, recipient: u32)
        -> (r: Result<SwapResult, Error>)
        requires
            router_wf(old(self)@),
            caller == payer,
            path_wf(old(self)@.venues, old(self)@.max_hops, *path),
        ensures
            router_wf(final(self)@),
            final(self)@.admin == old(self)@.admin,
            final(self)@.tol_bps == old(self)@.tol_bps,
            final(self)@.max_hops == old(self)@.max_hops,
            final(self)@.supported == old(self)@.supported,
            final(self)@.venues == old(self)@.venues,
            match r {
                Ok(res) => {
                    &&& path_run_outcome(old(self)@, *path, payer, recipient) == Ok::<
                        (int, int, int),
                        Error,
                    >((res.amount_out as int, res.fees_paid as int, res.price_impact as int))
                    &&& res.amount_out >= path.min_amount_out
                    &&& forall|a: u32, t: u32|
                        #[trigger] bal_of(final(self)@.ledger, a, t) == swap_settled_bal(
                            old(self)@.ledger,
                            a,
                            t,
                            path.from_asset,
                            path.to_asset,
                            payer,
                            recipient,
                            path.amount_in as int,
                            res.amount_out as int,
                        )
                },
                Err(e) => {
                    &&& path_run_outcome(old(self)@, *path, payer, recipient) == Err::<
                        (int, int, int),
                        Error,
                    >(e)
                    &&& same_balances(final(self)@.ledger, old(self)@.ledger)
                },
            },
    {
        let amount_in = path.amount_in;
        let from = path.from_asset;
        let to = path.to_asset;
        // Escrow the input under router custody before any hop runs.
        if !self.ledger.withdraw(payer, from, amount_in) {
            return Err(Error::SwapFailed);
        }
        let tol = self.config.slippage_tolerance_bps;
        match run_hops(&self.venues, &path.hops, amount_in, tol) {
            Err(e) => {
                let restored = self.ledger.deposit(payer, from, amount_in);
                assert(restored);
                proof {
                    assert forall|a: u32, t: u32| #[trigger] bal_of(self@.ledger, a, t) == bal_of(
                        old(self)@.ledger,
                        a,
                        t,
                    ) by {}
                }
                Err(e)
            },
            Ok((out, fees, impact)) => {
                match check_slippage(out, path.min_amount_out, path.quoted_out, tol) {
                    Err(e) => {
                        let restored = self.ledger.deposit(payer, from, amount_in);
                        assert(restored);
                        proof {
                            assert forall|a: u32, t: u32| #[trigger] bal_of(self@.ledger, a, t)
                                == bal_of(old(self)@.ledger, a, t) by {}
                        }
                        Err(e)
                    },
                    Ok(()) => {
                        if !self.ledger.deposit(recipient, to, out) {
                            let restored = self.ledger.deposit(payer, from, amount_in);
                            assert(restored);
                            proof {
                                assert forall|a: u32, t: u32| #[trigger] bal_of(self@.ledger, a, t)
                                    == bal_of(old(self)@.ledger, a, t) by {}
                            }
                            return Err(Error::SwapFailed);
                        }
                        proof {
                            assert forall|a: u32, t: u32| #[trigger] bal_of(self@.ledger, a, t)
                                == swap_settled_bal(
                                old(self)@.ledger,
                                a,
                                t,
                                path.from_asset,
                                path.to_asset,
                                payer,
                                recipient,
                                path.amount_in as int,
                                out as int,
                            ) by {}
                        }
                        Ok(SwapResult { amount_out: out, price_impact: impact, fees_paid: fees })
                    },
                }
            },
        }
    }

    /// Preview a swap without executing it: the same routing and pricing
    /// rules as execution, with no escrow and no transfer, so that under
    /// unchanged venue state a preview agrees with a subsequent
    /// execution.
    pub fn get_swap_quote(&self, from_asset: u32, to_asset: u32, amount_in: u64) -> (r: Result<
        SwapResult,
        Error,
    >)
        requires
            router_wf(self@),
        ensures
            match r {
                Ok(res) => quote_outcome(self@, from_asset, to_asset, amount_in as int) == Ok::<
                    (int, int, int),
                    Error,
                >((res.amount_out as int, res.price_impact as int, res.fees_paid as int)),
                Err(e) => quote_outcome(self@, from_asset, to_asset, amount_in as int) == Err::<
                    (int, int, int),
                    Error,
                >(e),
            },
    {
        if amount_in == 0 {
            return Err(Error::InvalidAsset);
        }
        if from_asset == to_asset {
            return Ok(SwapResult { amount_out: amount_in, price_impact: 0, fees_paid: 0 });
        }
        if !self.is_asset_supported(from_asset) || !self.is_asset_supported(to_asset) {
            return Err(Error::InvalidPath);
        }
        match search_route(&self.venues, from_asset, to_asset, amount_in, self.config.max_hops) {
            None => {
                if venues_connected(&self.venues, from_asset, to_asset, self.config.max_hops) {
                    Err(Error::InsufficientLiquidity)
                } else {
                    Err(Error::InvalidPath)
                }
            },
            Some(c) => Ok(
                SwapResult { amount_out: c.out, price_impact: c.impact, fees_paid: c.fees },
            ),
        }
    }

    /// Estimate the output amount of a swap, under the same rules as the
    /// full preview.
    pub fn estimate_swap_output(&self, from_asset: u32, to_asset: u32, amount_in: u64) -> (r:
        Result<u64, Error>)
        requires
            router_wf(self@),
        ensures
            match r {
                Ok(o) => quote_outcome(self@, from_asset, to_asset, amount_in as int) is Ok
                    && quote_outcome(self@, from_asset, to_asset, amount_in as int).unwrap().0 == o,
                Err(e) => quote_outcome(self@, from_asset, to_asset, amount_in as int) == Err::<
                    (int, int, int),
                    Error,
                >(e),
            },
    {
        match self.get_swap_quote(from_asset, to_asset, amount_in) {
            Ok(res) => Ok(res.amount_out),
            Err(e) => Err(e),
        }
    }

    /// Find the optimal path between two assets: the route of at most
    /// `max_hops` hops with the highest net output, preferring fewer
    /// hops and then lower price impact on ties.  Direct routes compete
    /// with multi-hop routes on equal terms.  Fails with InvalidAsset on
    /// a zero amount; with InvalidPath when an end is unsupported or the
    /// asset graph has no chain at all within the hop bound; and with
    /// InsufficientLiquidity when chains exist but the quoting rules
    /// block every one of them.
    pub fn find_optimal_path(&self, from_asset: u32, to_asset: u32, amount_in: u64) -> (r: Result<
        SwapPath,
        Error,
    >)
        requires
            router_wf(self@),
        ensures
            r is Ok <==> (amount_in >= 1 && self@.supported.contains(from_asset)
                && self@.supported.contains(to_asset) && best_route(
                self@.venues,
                from_asset,
                to_asset,
                amount_in as int,
                self@.max_hops,
            ) is Some),
            r matches Err(e) ==> e == (if amount_in == 0 {
                Error::InvalidAsset
            } else if !self@.supported.contains(from_asset) || !self@.supported.contains(to_asset) {
                Error::InvalidPath
            } else if route_exists(self@.venues, from_asset, to_asset, self@.max_hops) {
                Error::InsufficientLiquidity
            } else {
                Error::InvalidPath
            }),
            r matches Ok(p) ==> ({
                let c = best_route(
                    self@.venues,
                    from_asset,
                    to_asset,
                    amount_in as int,
                    self@.max_hops,
                ).unwrap();
                &&& p.from_asset == from_asset
                &&& p.to_asset == to_asset
                &&& p.amount_in == amount_in
                &&& p.hops@ == c.0
                &&& p.quoted_out == c.1
                &&& p.min_amount_out == tol_floor(c.1, self@.tol_bps)
                &&& path_wf(self@.venues, self@.max_hops, p)
                &&& eval_from(self@.venues, p.hops@, 0, amount_in as int) == Some((c.1, c.2, c.3))
            }),
    {
        if amount_in == 0 {
            return Err(Error::InvalidAsset);
        }
        if !self.is_asset_supported(from_asset) || !self.is_asset_supported(to_asset) {
            return Err(Error::InvalidPath);
        }
        match search_route(&self.venues, from_asset, to_asset, amount_in, self.config.max_hops) {
            None => {
                if venues_connected(&self.venues, from_asset, to_asset, self.config.max_hops) {
                    Err(Error::InsufficientLiquidity)
                } else {
                    Err(Error::InvalidPath)
                }
            },
            Some(c) => {
                let min_out = compute_tol_floor(c.out, self.config.slippage_tolerance_bps);
                Ok(
                    SwapPath {
                        from_asset,
                        to_asset,
                        amount_in,
                        min_amount_out: min_out,
                        quoted_out: c.out,
                        hops: c.hops,
                    },
                )
            },
        }
    }

    /// Execute a swap with automatic path finding: authorize, discover
    /// the best route, escrow, run the hops against live quotes, guard
    /// the realized output, and settle — all or nothing.  A same-asset
    /// request skips path discovery and transfers directly, with the
    /// output equal to the input, zero fees and zero impact.  The caller
    /// must hold authority to act for the payer, which the surrounding
    /// environment's authorization primitive establishes before entry.
    pub fn execute_swap(
        &mut self,
        caller: u32,
        from_asset: u32,
        to_asset: u32,
        amount_in: u64,
        min_amount_out: u64,
        payer: u32,
        recipient: u32,
    ) -> (r: Result<SwapResult, Error>)
        requires
            router_wf(old(self)@),
            caller == payer,
        ensures
            router_wf(final(self)@),
            final(self)@.admin == old(self)@.admin,
            final(self)@.tol_bps == old(self)@.tol_bps,
            final(self)@.max_hops == old(self)@.max_hops,
            final(self)@.supported == old(self)@.supported,
            final(self)@.venues == old(self)@.venues,
            match r {
                Ok(res) => {
                    &&& swap_outcome(
                        old(self)@,
                        from_asset,
                        to_asset,
                        amount_in as int,
                        min_amount_out as int,
                        payer,
                        recipient,
                    ) == Ok::<(int, int, int), Error>(
                        (res.amount_out as int, res.price_impact as int, res.fees_paid as int),
                    )
                    &&& res.amount_out >= min_amount_out
                    &&& forall|a: u32, t: u32|
                        #[trigger] bal_of(final(self)@.ledger, a, t) == swap_settled_bal(
                            old(self)@.ledger,
                            a,
                            t,
                            from_asset,
                            to_asset,
                            payer,
                            recipient,
                            amount_in as int,
                            res.amount_out as int,
                        )
                },
                Err(e) => {
                    &&& swap_outcome(
                        old(self)@,
                        from_asset,
                        to_asset,
                        amount_in as int,
                        min_amount_out as int,
                        payer,
                        recipient,
                    ) == Err::<(int, int, int), Error>(e)
                    &&& same_balances(final(self)@.ledger, old(self)@.ledger)
                },
            },
    {
        if amount_in == 0 {
            return Err(Error::InvalidAsset);
        }
        if from_asset == to_asset {
            // Same asset: a direct transfer, no path discovery.
            let bal = self.ledger.balance_of(payer, from_asset);
            if bal < amount_in {
                return Err(Error::SwapFailed);
            }
            if amount_in < min_amount_out {
                return Err(Error::SlippageExceeded);
            }
            if !self.ledger.transfer(payer, recipient, from_asset, amount_in) {
                return Err(Error::SwapFailed);
            }
            return Ok(SwapResult { amount_out: amount_in, price_impact: 0, fees_paid: 0 });
        }
        if !self.is_asset_supported(from_asset) || !self.is_asset_supported(to_asset) {
            return Err(Error::InvalidPath);
        }
        match search_route(&self.venues, from_asset, to_asset, amount_in, self.config.max_hops) {
            None => {
                if venues_connected(&self.venues, from_asset, to_asset, self.config.max_hops) {
                    Err(Error::InsufficientLiquidity)
                } else {
                    Err(Error::InvalidPath)
                }
            },
            Some(c) => {
                let ghost cabs = cand_abs(c);
                proof {
                    lemma_eval_run(self@.venues, cabs.0, 0, amount_in as int, self@.tol_bps);
                    lemma_run_bounds(self@.venues, cabs.0, 0, amount_in as int, self@.tol_bps);
                    lemma_tol_floor_le(cabs.1, self@.tol_bps);
                }
                let path = SwapPath {
                    from_asset,
                    to_asset,
                    amount_in,
                    min_amount_out,
                    quoted_out: c.out,
                    hops: c.hops,
                };
                self.execute_swap_path(caller, &path, payer, recipient)
            },
        }
    }
}

} // verus!

