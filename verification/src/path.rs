use vstd::prelude::*;
use vstd::math::max;
use vstd::arithmetic::mul::{lemma_mul_inequality, lemma_mul_nonnegative};
use crate::errors::Error;
use crate::venue::{
    Venue, venue_wf, venues_wf, hop_quote, hop_gross, quote_hop, BPS_DENOM, HOP_IMPACT_CEILING_BPS,
};
use crate::slippage::{tol_floor, lemma_tol_floor_le};

verus! {

/// One atomic exchange step of a path: the asset pair, the venue that
/// performs it (an index into the router's venue registry), and the net
/// output the quote oracle reported for this hop when the path was
/// discovered.  The recorded quote is what execution re-validates
/// against the venue's live state.
#[derive(Clone, Copy, Debug, PartialEq, Eq)]
pub struct Hop {
    pub asset_in: u32,
    pub asset_out: u32,
    pub venue: usize,
    pub quoted_out: u64,
}

/// A route for one swap: an ordered sequence of hops taking `amount_in`
/// of `from_asset` to `to_asset`.  `quoted_out` is the net output the
/// whole path quoted at discovery time, and `min_amount_out` the least
/// output execution may settle for.
#[derive(Clone, Debug, PartialEq, Eq)]
pub struct SwapPath {
    pub from_asset: u32,
    pub to_asset: u32,
    pub amount_in: u64,
    pub min_amount_out: u64,
    pub quoted_out: u64,
    pub hops: Vec<Hop>,
}

/// The hops form a chain through the venue registry: every venue index
/// is in range, each hop's asset pair is its venue's pair, the output
/// asset of each hop feeds the next hop's input, and the ends of the
/// chain are `from` and `to`.
pub open spec fn hops_linked(vs: Seq<Venue>, hops: Seq<Hop>, from: u32, to: u32) -> bool {
    &&& 1 <= hops.len()
    &&& forall|i: int|
        0 <= i < hops.len() ==> {
            &&& (#[trigger] hops[i]).venue < vs.len()
            &&& hops[i].asset_in == vs[hops[i].venue as int].asset_in
            &&& hops[i].asset_out == vs[hops[i].venue as int].asset_out
        }
    &&& forall|i: int| 0 < i < hops.len() ==> (#[trigger] hops[i]).asset_in == hops[i - 1].asset_out
    &&& hops[0].asset_in == from
    &&& hops[hops.len() - 1].asset_out == to
}

/// A path is well formed for a venue registry `vs` and a hop bound
/// `max_hops`: a positive input, and a linked chain of at most
/// `max_hops` hops from its source to its destination asset.
pub open spec fn path_wf(vs: Seq<Venue>, max_hops: int, p: SwapPath) -> bool {
    &&& 1 <= p.amount_in
    &&& hops_linked(vs, p.hops@, p.from_asset, p.to_asset)
    &&& p.hops@.len() <= max_hops
}

/// Evaluate the tail of a hop sequence, from index `i` on a held amount,
/// against the venues' current state: `None` where some hop has no live
/// quote or where its recorded quote disagrees with the live one;
/// otherwise the final output, the total fees, and the worst price
/// impact over the tail.
pub open spec fn eval_from(vs: Seq<Venue>, hops: Seq<Hop>, i: int, held: int) -> Option<
    (int, int, int),
>
    decreases hops.len() - i,
{
    if i < 0 || i >= hops.len() {
        Some((held, 0, 0))
    } else {
        let h = hops[i];
        if h.venue >= vs.len() {
            None
        } else {
            match hop_quote(vs[h.venue as int], held) {
                Some(q) => if q.0 != h.quoted_out {
                    None
                } else {
                    match eval_from(vs, hops, i + 1, q.0) {
                        Some(rest) => Some((rest.0, q.1 + rest.1, max(q.2, rest.2))),
                        None => None,
                    }
                },
                None => None,
            }
        }
    }
}

/// Execute the tail of a hop sequence in specification, re-quoting each
/// hop against live venue state: a hop with no live quote fails with
/// InsufficientLiquidity, and one whose live output falls below the
/// tolerance floor of its recorded quote fails with SlippageExceeded.
pub open spec fn run_from(vs: Seq<Venue>, hops: Seq<Hop>, i: int, held: int, tol_bps: int) -> Result<
    (int, int, int),
    Error,
>
    decreases hops.len() - i,
{
    if i < 0 || i >= hops.len() {
        Ok((held, 0, 0))
    } else {
        let h = hops[i];
        if h.venue >= vs.len() {
            Err(Error::SwapFailed)
        } else {
            match hop_quote(vs[h.venue as int], held) {
                None => Err(Error::InsufficientLiquidity),
                Some(q) => if q.0 < tol_floor(h.quoted_out as int, tol_bps) {
                    Err(Error::SlippageExceeded)
                } else {
                    match run_from(vs, hops, i + 1, q.0, tol_bps) {
                        Ok(rest) => Ok((rest.0, q.1 + rest.1, max(q.2, rest.2))),
                        Err(e) => Err(e),
                    }
                },
            }
        }
    }
}

/// A viable hop quote is positive, fits a machine word, and carries a
/// non-negative fee and impact.
pub proof fn lemma_hop_quote_bounds(v: Venue, amount: int)
    requires
        venue_wf(v),
        0 <= amount,
        hop_quote(v, amount) is Some,
    ensures
        ({
            let q = hop_quote(v, amount).unwrap();
            &&& 1 <= q.0 <= u64::MAX
            &&& 0 <= q.1 <= u64::MAX
            &&& 0 <= q.2 <= HOP_IMPACT_CEILING_BPS
        }),
{
    lemma_mul_nonnegative(amount, v.rate as int);
    lemma_mul_nonnegative(amount, BPS_DENOM as int);
    lemma_mul_nonnegative(hop_gross(v, amount), v.fee_bps as int);
}

/// A path whose recorded quotes agree with live state executes without
/// failure, with exactly the evaluated outcome, under any tolerance.
pub proof fn lemma_eval_run(vs: Seq<Venue>, hops: Seq<Hop>, i: int, held: int, tol_bps: int)
    requires
        venues_wf(vs),
        0 <= held,
        0 <= tol_bps <= BPS_DENOM,
        eval_from(vs, hops, i, held) is Some,
    ensures
        run_from(vs, hops, i, held, tol_bps) == Ok::<(int, int, int), Error>(
            eval_from(vs, hops, i, held).unwrap(),
        ),
    decreases hops.len() - i,
{
    if 0 <= i < hops.len() {
        let h = hops[i];
        let q = hop_quote(vs[h.venue as int], held).unwrap();
        lemma_hop_quote_bounds(vs[h.venue as int], held);
        lemma_tol_floor_le(h.quoted_out as int, tol_bps);
        lemma_eval_run(vs, hops, i + 1, q.0, tol_bps);
    }
}

/// Bounds of a successful run: the output is positive and fits a machine
/// word, fees are bounded by one word per executed hop, and the worst
/// impact respects the per-hop ceiling.
pub proof fn lemma_run_bounds(vs: Seq<Venue>, hops: Seq<Hop>, i: int, held: int, tol_bps: int)
    requires
        venues_wf(vs),
        1 <= held <= u64::MAX,
        0 <= i <= hops.len(),
        run_from(vs, hops, i, held, tol_bps) is Ok,
    ensures
        ({
            let rest = run_from(vs, hops, i, held, tol_bps).unwrap();
            &&& 1 <= rest.0 <= u64::MAX
            &&& 0 <= rest.1 <= (hops.len() - i) * (u64::MAX as int)
            &&& 0 <= rest.2 <= HOP_IMPACT_CEILING_BPS
        }),
    decreases hops.len() - i,
{
    if i < hops.len() {
        let h = hops[i];
        let q = hop_quote(vs[h.venue as int], held).unwrap();
        lemma_hop_quote_bounds(vs[h.venue as int], held);
        lemma_run_bounds(vs, hops, i + 1, q.0, tol_bps);
    }
}

/// A discovered route candidate: its hops, its net output, its total
/// fees, and its worst per-hop price impact.
pub struct PathCand {
    pub hops: Vec<Hop>,
    pub out: u64,
    pub fees: u128,
    pub impact: u64,
}

/// The mathematical image of a candidate.
pub open spec fn cand_abs(c: PathCand) -> (Seq<Hop>, int, int, int) {
    (c.hops@, c.out as int, c.fees as int, c.impact as int)
}

pub open spec fn opt_cand_abs(o: Option<PathCand>) -> Option<(Seq<Hop>, int, int, int)> {
    match o {
        Some(c) => Some(cand_abs(c)),
        None => None,
    }
}

/// The challenger beats the incumbent: higher net output; on equal
/// output fewer hops, since added hops add fee drag; on equal hops
/// lower aggregate price impact.
pub open spec fn cand_better(ch: (Seq<Hop>, int, int, int), inc: (Seq<Hop>, int, int, int)) -> bool {
    ||| ch.1 > inc.1
    ||| (ch.1 == inc.1 && ch.0.len() < inc.0.len())
    ||| (ch.1 == inc.1 && ch.0.len() == inc.0.len() && ch.3 < inc.3)
}

/// Keep the incumbent unless the challenger is strictly better.
pub open spec fn cand_pick(
    inc: Option<(Seq<Hop>, int, int, int)>,
    ch: Option<(Seq<Hop>, int, int, int)>,
) -> Option<(Seq<Hop>, int, int, int)> {
    match (inc, ch) {
        (None, _) => ch,
        (Some(_), None) => inc,
        (Some(a), Some(b)) => if cand_better(b, a) {
            ch
        } else {
            inc
        },
    }
}

/// The best route from `from` to `to` for an input of `amount` that uses
/// at most `k` hops and whose first hop is one of the first `n` venues,
/// examined in registry order.
pub open spec fn best_route_upto(
    vs: Seq<Venue>,
    n: int,
    from: u32,
    to: u32,
    amount: int,
    k: int,
) -> Option<(Seq<Hop>, int, int, int)>
    decreases k, n, 1int,
{
    if k <= 0 || n <= 0 {
        None
    } else {
        cand_pick(
            best_route_upto(vs, n - 1, from, to, amount, k),
            route_via(vs, n - 1, from, to, amount, k),
        )
    }
}

/// The best route of at most `k` hops whose first hop runs through venue
/// `i`: either that single hop where it lands on `to`, or the hop
/// followed by the best continuation from its output asset, whichever is
/// better.
pub open spec fn route_via(vs: Seq<Venue>, i: int, from: u32, to: u32, amount: int, k: int) -> Option<
    (Seq<Hop>, int, int, int),
>
    decreases k, i, 0int,
{
    if !(0 <= i < vs.len()) || vs[i].asset_in != from {
        None
    } else {
        let v = vs[i];
        match hop_quote(v, amount) {
            None => None,
            Some(q) => {
                let hop = Hop {
                    asset_in: v.asset_in,
                    asset_out: v.asset_out,
                    venue: i as usize,
                    quoted_out: q.0 as u64,
                };
                let direct: Option<(Seq<Hop>, int, int, int)> = if v.asset_out == to {
                    Some((seq![hop], q.0, q.1, q.2))
                } else {
                    None
                };
                let cont: Option<(Seq<Hop>, int, int, int)> = if k > 1 {
                    match best_route_upto(vs, vs.len() as int, v.asset_out, to, q.0, k - 1) {
                        None => None,
                        Some(c) => Some((c.0.insert(0, hop), c.1, q.1 + c.2, max(q.2, c.3))),
                    }
                } else {
                    None
                };
                cand_pick(direct, cont)
            },
        }
    }
}

/// The best route from `from` to `to` for an input of `amount` using at
/// most `k` hops, over the whole venue registry.
pub open spec fn best_route(vs: Seq<Venue>, from: u32, to: u32, amount: int, k: int) -> Option<
    (Seq<Hop>, int, int, int),
> {
    best_route_upto(vs, vs.len() as int, from, to, amount, k)
}

/// Whether some chain of at most `k` venues links `from` to `to`, with
/// the first venue among the first `n` of the registry.  This is pure
/// connectivity of the asset graph: amounts and quotes play no part.
pub open spec fn route_exists_upto(vs: Seq<Venue>, n: int, from: u32, to: u32, k: int) -> bool
    decreases k, n, 1int,
{
    if k <= 0 || n <= 0 {
        false
    } else {
        route_exists_upto(vs, n - 1, from, to, k) || route_exists_via(vs, n - 1, from, to, k)
    }
}

/// Whether a chain of at most `k` venues from `from` to `to` can start
/// with venue `i`.
pub open spec fn route_exists_via(vs: Seq<Venue>, i: int, from: u32, to: u32, k: int) -> bool
    decreases k, i, 0int,
{
    if !(0 <= i < vs.len()) || vs[i].asset_in != from {
        false
    } else {
        vs[i].asset_out == to || (k > 1 && route_exists_upto(
            vs,
            vs.len() as int,
            vs[i].asset_out,
            to,
            k - 1,
        ))
    }
}

/// Whether the asset graph connects `from` to `to` within `k` hops at
/// all, viable or not.
pub open spec fn route_exists(vs: Seq<Venue>, from: u32, to: u32, k: int) -> bool {
    route_exists_upto(vs, vs.len() as int, from, to, k)
}

/// A chain through one venue among the first `n` is a chain among the
/// first `n`.
pub proof fn lemma_route_exists_upto_mono(vs: Seq<Venue>, n: int, i: int, from: u32, to: u32, k: int)
    requires
        0 <= i < n,
        1 <= k,
        route_exists_via(vs, i, from, to, k),
    ensures
        route_exists_upto(vs, n, from, to, k),
    decreases n,
{
    if i < n - 1 {
        lemma_route_exists_upto_mono(vs, n - 1, i, from, to, k);
    }
}

/// Decide whether the asset graph connects `from` to `to` within
/// `max_hops` hops, irrespective of amounts and quotes.
pub fn venues_connected(venues: &Vec<Venue>, from: u32, to: u32, max_hops: u32) -> (r: bool)
    ensures
        r == route_exists(venues@, from, to, max_hops as int),
    decreases max_hops,
{
    if max_hops == 0 {
        return false;
    }
    let n = venues.len();
    let mut i: usize = 0;
    while i < n
        invariant
            n == venues.len(),
            1 <= max_hops,
            i <= n,
            !route_exists_upto(venues@, i as int, from, to, max_hops as int),
        decreases n - i,
    {
        let v = venues[i];
        if v.asset_in == from {
            if v.asset_out == to {
                proof {
                    lemma_route_exists_upto_mono(
                        venues@,
                        n as int,
                        i as int,
                        from,
                        to,
                        max_hops as int,
                    );
                }
                return true;
            }
            if max_hops > 1 && venues_connected(venues, v.asset_out, to, max_hops - 1) {
                proof {
                    lemma_route_exists_upto_mono(
                        venues@,
                        n as int,
                        i as int,
                        from,
                        to,
                        max_hops as int,
                    );
                }
                return true;
            }
        }
        i += 1;
        proof {
            assert(!route_exists_via(venues@, i as int - 1, from, to, max_hops as int));
        }
    }
    false
}

/// What a best-route candidate guarantees: a linked chain within the hop
/// budget whose evaluation against current venue state yields exactly
/// the candidate's totals, all within machine bounds.
pub open spec fn cand_props(
    vs: Seq<Venue>,
    from: u32,
    to: u32,
    amount: int,
    k: int,
    c: (Seq<Hop>, int, int, int),
) -> bool {
    &&& hops_linked(vs, c.0, from, to)
    &&& 1 <= c.0.len() <= k
    &&& eval_from(vs, c.0, 0, amount) == Some((c.1, c.2, c.3))
    &&& 1 <= c.1 <= u64::MAX
    &&& 0 <= c.2 <= c.0.len() * (u64::MAX as int)
    &&& 0 <= c.3 <= HOP_IMPACT_CEILING_BPS
}

pub proof fn lemma_best_route_upto_props(
    vs: Seq<Venue>,
    n: int,
    from: u32,
    to: u32,
    amount: int,
    k: int,
)
    requires
        venues_wf(vs),
        vs.len() <= usize::MAX,
        1 <= amount <= u64::MAX,
        n <= vs.len(),
    ensures
        match best_route_upto(vs, n, from, to, amount, k) {
            None => true,
            Some(c) => cand_props(vs, from, to, amount, k, c),
        },
    decreases k, n, 1int,
{
    if k > 0 && n > 0 {
        lemma_best_route_upto_props(vs, n - 1, from, to, amount, k);
        lemma_route_via_props(vs, n - 1, from, to, amount, k);
    }
}

pub proof fn lemma_route_via_props(vs: Seq<Venue>, i: int, from: u32, to: u32, amount: int, k: int)
    requires
        venues_wf(vs),
        vs.len() <= usize::MAX,
        1 <= amount <= u64::MAX,
        k >= 1,
        i < vs.len(),
    ensures
        match route_via(vs, i, from, to, amount, k) {
            None => true,
            Some(c) => cand_props(vs, from, to, amount, k, c),
        },
    decreases k, i, 0int,
{
    if 0 <= i && vs[i].asset_in == from {
        let v = vs[i];
        match hop_quote(v, amount) {
            None => {},
            Some(q) => {
                lemma_hop_quote_bounds(v, amount);
                let hop = Hop {
                    asset_in: v.asset_in,
                    asset_out: v.asset_out,
                    venue: i as usize,
                    quoted_out: q.0 as u64,
                };
                if v.asset_out == to {
                    let c = (seq![hop], q.0, q.1, q.2);
                    assert(c.0[0] == hop);
                    assert(eval_from(vs, c.0, 1, q.0) == Some((q.0, 0int, 0int)));
                    assert(eval_from(vs, c.0, 0, amount) == Some((c.1, c.2, c.3)));
                    assert(cand_props(vs, from, to, amount, k, c));
                }
                if k > 1 {
                    lemma_best_route_upto_props(vs, vs.len() as int, v.asset_out, to, q.0, k - 1);
                    match best_route_upto(vs, vs.len() as int, v.asset_out, to, q.0, k - 1) {
                        None => {},
                        Some(c) => {
                            let ext = (c.0.insert(0, hop), c.1, q.1 + c.2, max(q.2, c.3));
                            c.0.insert_ensures(0, hop);
                            assert(ext.0[0] == hop);
                            assert forall|j: int| 0 < j < ext.0.len() implies (
                            #[trigger] ext.0[j]) == c.0[j - 1] by {
                                assert(ext.0[(j - 1) + 1] == c.0[j - 1]);
                            }
                            assert(hops_linked(vs, ext.0, from, to));
                            lemma_eval_shift(vs, ext.0, c.0, 1, 0, q.0);
                            assert(eval_from(vs, ext.0, 0, amount) == Some((ext.1, ext.2, ext.3)));
                            lemma_mul_inequality(c.0.len() as int, ext.0.len() - 1, u64::MAX as int);
                            assert(cand_props(vs, from, to, amount, k, ext));
                        },
                    }
                }
            },
        }
    }
}

/// Keep the incumbent candidate unless the challenger is strictly
/// better.
fn pick_cand(inc: Option<PathCand>, ch: Option<PathCand>) -> (r: Option<PathCand>)
    ensures
        opt_cand_abs(r) == cand_pick(opt_cand_abs(inc), opt_cand_abs(ch)),
{
    match (inc, ch) {
        (None, c) => c,
        (Some(a), None) => Some(a),
        (Some(a), Some(b)) => {
            let better = b.out > a.out || (b.out == a.out && (b.hops.len() < a.hops.len() || (
            b.hops.len() == a.hops.len() && b.impact < a.impact)));
            if better {
                Some(b)
            } else {
                Some(a)
            }
        },
    }
}

/// Search the venue registry for the best route from `from` to `to` for
/// an input of `amount_in`, using at most `max_hops` hops: each viable
/// first hop is quoted against live venue state and extended by the best
/// continuation from its output asset, and candidates compete on net
/// output, then fewer hops, then lower price impact.
pub fn search_route(venues: &Vec<Venue>, from: u32, to: u32, amount_in: u64, max_hops: u32) -> (r:
    Option<PathCand>)
    requires
        venues_wf(venues@),
        1 <= amount_in,
    ensures
        opt_cand_abs(r) == best_route(venues@, from, to, amount_in as int, max_hops as int),
        r matches Some(c) ==> cand_props(
            venues@,
            from,
            to,
            amount_in as int,
            max_hops as int,
            cand_abs(c),
        ),
    decreases max_hops,
{
    if max_hops == 0 {
        return None;
    }
    let ghost k: int = max_hops as int;
    let mut best: Option<PathCand> = None;
    let n = venues.len();
    let mut i: usize = 0;
    while i < n
        invariant
            venues_wf(venues@),
            1 <= amount_in,
            1 <= max_hops,
            k == max_hops as int,
            n == venues.len(),
            i <= n,
            opt_cand_abs(best) == best_route_upto(venues@, i as int, from, to, amount_in as int, k),
        decreases n - i,
    {
        let v = venues[i];
        let mut cand: Option<PathCand> = None;
        if v.asset_in == from {
            match quote_hop(&v, amount_in) {
                Err(_) => {},
                Ok(q) => {
                    proof {
                        lemma_hop_quote_bounds(venues@[i as int], amount_in as int);
                    }
                    let hop = Hop {
                        asset_in: v.asset_in,
                        asset_out: v.asset_out,
                        venue: i,
                        quoted_out: q.0,
                    };
                    let mut direct: Option<PathCand> = None;
                    if v.asset_out == to {
                        let mut hv: Vec<Hop> = Vec::new();
                        hv.push(hop);
                        proof {
                            assert(hv@ =~= seq![hop]);
                        }
                        direct = Some(
                            PathCand { hops: hv, out: q.0, fees: q.1 as u128, impact: q.2 },
                        );
                    }
                    let mut cont: Option<PathCand> = None;
                    if max_hops > 1 {
                        match search_route(venues, v.asset_out, to, q.0, max_hops - 1) {
                            None => {},
                            Some(c) => {
                                proof {
                                    lemma_mul_inequality(
                                        c.hops@.len() as int,
                                        u32::MAX as int,
                                        u64::MAX as int,
                                    );
                                }
                                let PathCand { hops: mut chops, out, fees, impact } = c;
                                chops.insert(0, hop);
                                let fees2: u128 = q.1 as u128 + fees;
                                let impact2: u64 = if q.2 > impact {
                                    q.2
                                } else {
                                    impact
                                };
                                cont = Some(
                                    PathCand { hops: chops, out, fees: fees2, impact: impact2 },
                                );
                            },
                        }
                    }
                    cand = pick_cand(direct, cont);
                },
            }
        }
        proof {
            assert(opt_cand_abs(cand) == route_via(venues@, i as int, from, to, amount_in as int, k));
        }
        best = pick_cand(best, cand);
        i += 1;
        proof {
            assert(best_route_upto(venues@, i as int, from, to, amount_in as int, k) == cand_pick(
                best_route_upto(venues@, i as int - 1, from, to, amount_in as int, k),
                route_via(venues@, i as int - 1, from, to, amount_in as int, k),
            ));
        }
    }
    proof {
        lemma_best_route_upto_props(venues@, n as int, from, to, amount_in as int, k);
    }
    best
}

/// The best route over the first `n` venues is at least as good, in net
/// output, as the best route through any single one of them.
pub proof fn lemma_upto_ge_via(vs: Seq<Venue>, n: int, i: int, from: u32, to: u32, amount: int, k: int)
    requires
        0 <= i < n,
        k >= 1,
    ensures
        route_via(vs, i, from, to, amount, k) is Some ==> (best_route_upto(
            vs,
            n,
            from,
            to,
            amount,
            k,
        ) is Some && best_route_upto(vs, n, from, to, amount, k).unwrap().1 >= route_via(
            vs,
            i,
            from,
            to,
            amount,
            k,
        ).unwrap().1),
    decreases n,
{
    if i < n - 1 {
        lemma_upto_ge_via(vs, n - 1, i, from, to, amount, k);
    }
}

/// Completeness and optimality of the search: any linked chain of at
/// most `k` hops that evaluates successfully is matched or beaten by the
/// best route, so a route is found exactly when one exists, and none
/// found yields a higher net output.
pub proof fn lemma_best_route_complete(
    vs: Seq<Venue>,
    from: u32,
    to: u32,
    amount: int,
    k: int,
    hops: Seq<Hop>,
)
    requires
        venues_wf(vs),
        vs.len() <= usize::MAX,
        1 <= amount <= u64::MAX,
        hops_linked(vs, hops, from, to),
        1 <= hops.len() <= k,
        eval_from(vs, hops, 0, amount) is Some,
    ensures
        best_route(vs, from, to, amount, k) is Some,
        best_route(vs, from, to, amount, k).unwrap().1 >= eval_from(vs, hops, 0, amount).unwrap().0,
    decreases k,
{
    let i = hops[0].venue as int;
    let v = vs[i];
    let q = hop_quote(v, amount).unwrap();
    lemma_hop_quote_bounds(v, amount);
    let ev = eval_from(vs, hops, 0, amount).unwrap();
    if hops.len() == 1 {
        assert(eval_from(vs, hops, 1, q.0) == Some((q.0, 0int, 0int)));
        assert(ev.0 == q.0);
        assert(route_via(vs, i, from, to, amount, k) is Some && route_via(
            vs,
            i,
            from,
            to,
            amount,
            k,
        ).unwrap().1 >= q.0);
    } else {
        let tail = hops.subrange(1, hops.len() as int);
        assert forall|d: int| 0 <= d < hops.len() - 1 implies #[trigger] hops[1 + d] == tail[0
            + d] by {}
        lemma_eval_shift(vs, hops, tail, 1, 0, q.0);
        assert(hops_linked(vs, tail, v.asset_out, to)) by {
            assert(tail[0] == hops[1]);
            assert(tail[tail.len() - 1] == hops[hops.len() - 1]);
            assert forall|j: int| 0 < j < tail.len() implies (#[trigger] tail[j]).asset_in == tail[j
                - 1].asset_out by {
                assert(tail[j] == hops[j + 1]);
                assert(tail[j - 1] == hops[j]);
            }
        }
        lemma_best_route_complete(vs, v.asset_out, to, q.0, k - 1, tail);
        assert(route_via(vs, i, from, to, amount, k) is Some && route_via(
            vs,
            i,
            from,
            to,
            amount,
            k,
        ).unwrap().1 >= ev.0);
    }
    lemma_upto_ge_via(vs, vs.len() as int, i, from, to, amount, k);
}

/// Evaluation only reads the hops from the start index on: two sequences
/// with the same tail evaluate alike.
pub proof fn lemma_eval_shift(vs: Seq<Venue>, s: Seq<Hop>, t: Seq<Hop>, i: int, j: int, held: int)
    requires
        0 <= i <= s.len(),
        0 <= j <= t.len(),
        s.len() - i == t.len() - j,
        forall|d: int| 0 <= d < s.len() - i ==> #[trigger] s[i + d] == t[j + d],
    ensures
        eval_from(vs, s, i, held) == eval_from(vs, t, j, held),
    decreases s.len() - i,
{
    if i < s.len() {
        assert(s[i + 0] == t[j + 0]);
        let h = s[i];
        if h.venue < vs.len() {
            match hop_quote(vs[h.venue as int], held) {
                Some(q) => {
                    assert forall|d: int| 0 <= d < s.len() - (i + 1) implies #[trigger] s[(i + 1)
                        + d] == t[(j + 1) + d] by {
                        assert(s[i + (d + 1)] == t[j + (d + 1)]);
                    }
                    lemma_eval_shift(vs, s, t, i + 1, j + 1, q.0);
                },
                None => {},
            }
        }
    }
}

} // verus!
