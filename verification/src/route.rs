//! Bridge finding and the greedy, limit-escalating router.
//!
//! A hop from a neutron star `S` to a neutron star `D` is realizable at a
//! base range limit `L` when some general star `G` lies within plain range
//! `L` of `D` and within boosted range `L * BOOST` of `S`.  The squared,
//! fixed-point measure of the minimum base range that makes both legs of
//! such a bridge valid at once is its *key*,
//! `max(dist(S,G)^2, BOOST^2 * dist(G,D)^2)`: a bridge is achievable at
//! limit `L` exactly when its key is at most `BOOST^2 * L^2`.  All
//! comparisons are exact, so no floating-point tolerance is involved.
//!
//! The router repeatedly commits the first hop, in order of increasing
//! distance to the goal, for which a bridge exists at the working limit;
//! when no hop works it raises the limit by [`LIMIT_STEP`] and retries,
//! giving up beyond [`LIMIT_CEILING`].

use vstd::prelude::*;

use crate::geom::{sq_dist, sq_dist_spec, Pt};
use crate::index::{lemma_radius_query_exact, query_spec, SpatialIndex};
use crate::store::{StarKind, Store};

verus! {

/// Range multiplier of a boosted jump out of a general star's well.
pub const BOOST: u64 = 6;

/// `BOOST * BOOST`, the factor the bridge key scales unboosted legs by.
pub const BOOST_SQ: u64 = 36;

/// How much the working limit grows per escalation: one light-year, in
/// fixed-point units.
pub const LIMIT_STEP: u64 = 1024;

/// The hard ceiling on the working limit: a thousand light-years, in
/// fixed-point units.  The search aborts beyond it.
pub const LIMIT_CEILING: u64 = 1_024_000;

/// A hop from `s` to `d` bridged by `g` is feasible at base limit `limit`:
/// `g` is within plain range `limit` of `d` and within boosted range
/// `limit * BOOST` of `s`, compared through squares.
pub open spec fn bridge_ok(s: Pt, g: Pt, d: Pt, limit: int) -> bool {
    &&& sq_dist_spec(g, d) <= limit * limit
    &&& sq_dist_spec(s, g) <= BOOST_SQ * (limit * limit)
}

/// The squared, scaled measure of the minimum base range at which both legs
/// of the bridge `s -> g -> d` are simultaneously valid: with
/// `leg_base = max(dist(s,g) / BOOST, dist(g,d))`, this is
/// `(BOOST * leg_base)^2`.
pub open spec fn bridge_key(s: Pt, g: Pt, d: Pt) -> int {
    let a = sq_dist_spec(s, g);
    let b = BOOST_SQ * sq_dist_spec(g, d);
    if a >= b {
        a
    } else {
        b
    }
}

/// Feasibility at a limit is exactly the key bound `BOOST_SQ * limit^2`.
pub proof fn lemma_bridge_ok_is_key_bound(s: Pt, g: Pt, d: Pt, limit: int)
    ensures
        bridge_ok(s, g, d, limit) <==> bridge_key(s, g, d) <= BOOST_SQ * (limit * limit),
{
}

/// Some general star of the store bridges the hop `src -> dst` at `limit`.
pub open spec fn hop_bridgeable(store: Store, src: int, dst: int, limit: int) -> bool {
    exists|g: int|
        0 <= g < store.spec_len() && store.kinds@[g] == StarKind::General
            && #[trigger] bridge_ok(store.coords@[src], store.coords@[g], store.coords@[dst], limit)
}

/// Some neutron star strictly closer to the goal can be reached from
/// `current` by a bridged hop at `limit`.
pub open spec fn can_advance(store: Store, current: int, goal: int, limit: int) -> bool {
    exists|c: int|
        0 <= c < store.spec_len() && store.kinds@[c] == StarKind::Neutron && sq_dist_spec(
            store.coords@[c],
            store.coords@[goal],
        ) < sq_dist_spec(store.coords@[current], store.coords@[goal])
            && #[trigger] hop_bridgeable(store, current, c, limit)
}

/// Searches the general-star index for the best bridge making the hop
/// `src -> dst` feasible at `limit`.  Returns the bridging general star and
/// its key, choosing a bridge of minimal key, or nothing exactly when no
/// general star bridges the hop at this limit.  The limit is capped at
/// [`LIMIT_CEILING`], the largest range the router ever tests, which also
/// keeps the squared-range arithmetic inside `u64`.
#[verifier::loop_isolation(false)]
pub fn find_bridge_general(
    src: usize,
    dst: usize,
    store: &Store,
    general_index: &SpatialIndex,
    limit: u64,
) -> (r: Option<(usize, u64)>)
    requires
        store.wf(),
        src < store.spec_len(),
        dst < store.spec_len(),
        general_index.valid_for(*store),
        general_index.kind == StarKind::General,
        1 <= limit <= LIMIT_CEILING,
    ensures
        match r {
            Some(best) => {
                &&& best.0 < store.spec_len()
                &&& store.kinds@[best.0 as int] == StarKind::General
                &&& bridge_ok(
                    store.coords@[src as int],
                    store.coords@[best.0 as int],
                    store.coords@[dst as int],
                    limit as int,
                )
                &&& best.1 == bridge_key(
                    store.coords@[src as int],
                    store.coords@[best.0 as int],
                    store.coords@[dst as int],
                )
                &&& best.1 <= BOOST_SQ * (limit as int * limit as int)
                &&& forall|h: int|
                    0 <= h < store.spec_len() && store.kinds@[h] == StarKind::General && bridge_ok(
                        store.coords@[src as int],
                        store.coords@[h],
                        store.coords@[dst as int],
                        limit as int,
                    ) ==> best.1 <= bridge_key(
                        store.coords@[src as int],
                        store.coords@[h],
                        store.coords@[dst as int],
                    )
            },
            None => forall|h: int|
                0 <= h < store.spec_len() && store.kinds@[h] == StarKind::General ==> !bridge_ok(
                    store.coords@[src as int],
                    store.coords@[h],
                    store.coords@[dst as int],
                    limit as int,
                ),
        },
{
    let _sl = store.len();
    proof {
        assert(limit * limit <= LIMIT_CEILING * LIMIT_CEILING) by (nonlinear_arith)
            requires
                1 <= limit <= LIMIT_CEILING,
        ;
    }
    let r_sq: u64 = limit * limit;
    let src_r_sq: u64 = BOOST_SQ * r_sq;
    let spt = store.coords[src];
    let dpt = store.coords[dst];
    let cands = general_index.query(&dpt, r_sq, store);
    let ghost cseq = query_spec(general_index.entries@, dpt, r_sq);
    let mut best: Option<(usize, u64)> = None;
    let n = cands.len();
    let mut i: usize = 0;
    while i < n
        invariant
            i <= n == cseq.len(),
            cands@ == cseq,
            (match best {
                Some(b) => {
                    &&& b.0 < store.spec_len()
                    &&& store.kinds@[b.0 as int] == StarKind::General
                    &&& bridge_ok(
                        spt,
                        store.coords@[b.0 as int],
                        dpt,
                        limit as int,
                    )
                    &&& b.1 == bridge_key(spt, store.coords@[b.0 as int], dpt)
                    &&& b.1 <= BOOST_SQ * (limit as int * limit as int)
                    &&& forall|j: int|
                        0 <= j < i ==> bridge_key(
                            spt,
                            store.coords@[(#[trigger] cseq[j]).0 as int],
                            dpt,
                        ) >= b.1
                },
                None => forall|j: int|
                    0 <= j < i ==> !bridge_ok(
                        spt,
                        store.coords@[(#[trigger] cseq[j]).0 as int],
                        dpt,
                        limit as int,
                    ),
            }),
        decreases n - i,
    {
        let (gid, d_gd) = cands[i];
        proof {
            assert(cseq.contains(cseq[i as int]));
            lemma_radius_query_exact(*store, *general_index, dpt, r_sq, gid, d_gd);
        }
        let gpt = store.coords[gid];
        let d_sg = sq_dist(&spt, &gpt);
        if d_sg <= src_r_sq {
            let scaled: u64 = BOOST_SQ * d_gd;
            let key: u64 = if d_sg >= scaled {
                d_sg
            } else {
                scaled
            };
            assert(key == bridge_key(spt, gpt, dpt));
            match best {
                Some(b) => {
                    if key < b.1 {
                        best = Some((gid, key));
                    }
                },
                None => {
                    best = Some((gid, key));
                },
            }
        } else {
            proof {
                assert(!bridge_ok(spt, gpt, dpt, limit as int));
                assert(bridge_key(spt, gpt, dpt) >= sq_dist_spec(spt, gpt));
                assert(bridge_key(spt, gpt, dpt) > BOOST_SQ * (limit as int * limit as int));
            }
        }
        i = i + 1;
    }
    proof {
        if best is Some {
            let b = best->Some_0;
            assert forall|h: int|
                0 <= h < store.spec_len() && store.kinds@[h] == StarKind::General && bridge_ok(
                    spt,
                    store.coords@[h],
                    dpt,
                    limit as int,
                ) implies b.1 <= bridge_key(spt, store.coords@[h], dpt) by {
                let hd = sq_dist_spec(store.coords@[h], dpt);
                crate::geom::lemma_sq_dist_bounds(store.coords@[h], dpt);
                lemma_radius_query_exact(
                    *store,
                    *general_index,
                    dpt,
                    r_sq,
                    h as usize,
                    hd as u64,
                );
                assert(cseq.contains((h as usize, hd as u64)));
                let j = choose|j: int| 0 <= j < cseq.len() && cseq[j] == (h as usize, hd as u64);
                assert(bridge_key(spt, store.coords@[(cseq[j]).0 as int], dpt) >= b.1);
            }
        } else {
            assert forall|h: int|
                0 <= h < store.spec_len() && store.kinds@[h]
                    == StarKind::General implies !bridge_ok(
                spt,
                store.coords@[h],
                dpt,
                limit as int,
            ) by {
                if bridge_ok(spt, store.coords@[h], dpt, limit as int) {
                    let hd = sq_dist_spec(store.coords@[h], dpt);
                    crate::geom::lemma_sq_dist_bounds(store.coords@[h], dpt);
                    lemma_radius_query_exact(
                        *store,
                        *general_index,
                        dpt,
                        r_sq,
                        h as usize,
                        hd as u64,
                    );
                    assert(cseq.contains((h as usize, hd as u64)));
                    let j = choose|j: int|
                        0 <= j < cseq.len() && cseq[j] == (h as usize, hd as u64);
                    assert(!bridge_ok(
                        spt,
                        store.coords@[(cseq[j]).0 as int],
                        dpt,
                        limit as int,
                    ));
                }
            }
        }
    }
    best
}

/// A computed route: the bridging general star of each hop in hop order, the
/// neutron stars visited (start first, goal last), the squared scaled
/// measure of the base range the whole route requires (the maximum of its
/// hops' keys), and the physical jump count, two per bridge.
pub struct Route {
    pub bridges: Vec<usize>,
    pub hops: Vec<usize>,
    pub required_key: u64,
    pub jumps: u64,
}

/// Everything a returned route promises, hop by hop: it runs from `start`
/// to `goal` over neutron stars; every hop is bridged by a general star
/// whose key is within the reported requirement, which some hop attains;
/// and every hop strictly decreases the distance to the goal.
pub open spec fn route_wf(store: Store, start: usize, goal: usize, rt: Route) -> bool {
    let hops = rt.hops@;
    let bridges = rt.bridges@;
    let coords = store.coords@;
    &&& hops.len() == bridges.len() + 1
    &&& hops[0] == start
    &&& hops.last() == goal
    &&& forall|i: int|
        0 <= i < hops.len() ==> (#[trigger] hops[i]) < store.spec_len() && store.kinds@[hops[i] as int]
            == StarKind::Neutron
    &&& forall|i: int|
        0 <= i < bridges.len() ==> (#[trigger] bridges[i]) < store.spec_len()
            && store.kinds@[bridges[i] as int] == StarKind::General
    &&& forall|i: int|
        0 <= i < bridges.len() ==> bridge_key(
            coords[(#[trigger] hops[i]) as int],
            coords[bridges[i] as int],
            coords[hops[i + 1] as int],
        ) <= rt.required_key
    &&& forall|i: int|
        0 <= i < bridges.len() ==> sq_dist_spec(
            coords[(#[trigger] hops[i + 1]) as int],
            coords[goal as int],
        ) < sq_dist_spec(coords[hops[i] as int], coords[goal as int])
    &&& (bridges.len() == 0 ==> rt.required_key == 0)
    &&& (bridges.len() > 0 ==> exists|i: int|
        0 <= i < bridges.len() && bridge_key(
            coords[(#[trigger] hops[i]) as int],
            coords[bridges[i] as int],
            coords[hops[i + 1] as int],
        ) == rt.required_key)
    &&& rt.required_key <= BOOST_SQ * (LIMIT_CEILING as int * LIMIT_CEILING as int)
    &&& rt.jumps == 2 * bridges.len()
}

/// What the candidate gathering established of each next-hop candidate: a
/// neutron star of the store, strictly closer to the goal than the current
/// position, paired with its squared distance to the goal.
pub open spec fn cand_ok(store: Store, goal: usize, cur_goal_sq: u64, c: (u64, usize)) -> bool {
    &&& c.1 < store.spec_len()
    &&& store.kinds@[c.1 as int] == StarKind::Neutron
    &&& c.0 == sq_dist_spec(store.coords@[c.1 as int], store.coords@[goal as int])
    &&& c.0 < cur_goal_sq
}

/// One search round at a fixed limit: gathers every neutron star in reach of
/// `current` that is strictly closer to the goal and, taking candidates in
/// order of increasing distance to the goal (first id on ties), returns the
/// first one for which a bridge exists at `limit`, with its bridging general
/// star and key.  Returns nothing when no candidate can be bridged at this
/// limit.
#[verifier::loop_isolation(false)]
#[verifier::rlimit(100)]
fn try_advance(
    current: usize,
    goal: usize,
    store: &Store,
    neutron_index: &SpatialIndex,
    general_index: &SpatialIndex,
    limit: u64,
) -> (r: Option<(usize, usize, u64)>)
    requires
        store.wf(),
        current < store.spec_len(),
        goal < store.spec_len(),
        neutron_index.valid_for(*store),
        neutron_index.kind == StarKind::Neutron,
        general_index.valid_for(*store),
        general_index.kind == StarKind::General,
        1 <= limit <= LIMIT_CEILING,
    ensures
        match r {
            Some(adv) => {
                &&& adv.0 < store.spec_len()
                &&& store.kinds@[adv.0 as int] == StarKind::Neutron
                &&& adv.1 < store.spec_len()
                &&& store.kinds@[adv.1 as int] == StarKind::General
                &&& sq_dist_spec(store.coords@[adv.0 as int], store.coords@[goal as int])
                    < sq_dist_spec(store.coords@[current as int], store.coords@[goal as int])
                &&& adv.2 == bridge_key(
                    store.coords@[current as int],
                    store.coords@[adv.1 as int],
                    store.coords@[adv.0 as int],
                )
                &&& adv.2 <= BOOST_SQ * (limit as int * limit as int)
            },
            None => !can_advance(*store, current as int, goal as int, limit as int),
        },
{
    let _sl = store.len();
    let cpt = store.coords[current];
    let gpt = store.coords[goal];
    let cur_goal_sq = sq_dist(&cpt, &gpt);
    let radius: u64 = limit * 7;
    proof {
        assert(radius * radius <= 51_380_224_000_000) by (nonlinear_arith)
            requires
                radius <= 7_168_000,
        ;
    }
    let r_sq: u64 = radius * radius;
    let near = neutron_index.query(&cpt, r_sq, store);
    let ghost nseq = query_spec(neutron_index.entries@, cpt, r_sq);
    let mut cands: Vec<(u64, usize)> = Vec::new();
    let nn = near.len();
    let mut k: usize = 0;
    while k < nn
        invariant
            k <= nn == nseq.len(),
            near@ == nseq,
            forall|j: int|
                0 <= j < cands@.len() ==> cand_ok(*store, goal, cur_goal_sq, #[trigger] cands@[j]),
            forall|j: int|
                0 <= j < k && (#[trigger] nseq[j]).0 != current && sq_dist_spec(
                    store.coords@[nseq[j].0 as int],
                    store.coords@[goal as int],
                ) < cur_goal_sq ==> exists|m: int|
                    0 <= m < cands@.len() && (#[trigger] cands@[m]).1 == nseq[j].0,
        decreases nn - k,
    {
        let ghost pre = cands@;
        let (nid, nd) = near[k];
        proof {
            assert(nseq.contains(nseq[k as int]));
            lemma_radius_query_exact(*store, *neutron_index, cpt, r_sq, nid, nd);
        }
        if nid != current {
            let dist_goal = sq_dist(&store.coords[nid], &gpt);
            if dist_goal < cur_goal_sq {
                cands.push((dist_goal, nid));
            }
        }
        proof {
            assert forall|j: int|
                0 <= j < k + 1 && (#[trigger] nseq[j]).0 != current && sq_dist_spec(
                    store.coords@[nseq[j].0 as int],
                    store.coords@[goal as int],
                ) < cur_goal_sq implies exists|m: int|
                0 <= m < cands@.len() && (#[trigger] cands@[m]).1 == nseq[j].0 by {
                if j < k {
                    let m = choose|m: int| 0 <= m < pre.len() && (#[trigger] pre[m]).1 == nseq[j].0;
                    assert(cands@[m].1 == nseq[j].0);
                } else {
                    assert(cands@[cands@.len() - 1].1 == nid);
                }
            }
        }
        k = k + 1;
    }
    proof {
        assert((limit as int * 7) * (limit as int * 7) == 49 * (limit as int * limit as int))
            by (nonlinear_arith);
        assert forall|c: int|
            0 <= c < store.spec_len() && store.kinds@[c] == StarKind::Neutron && sq_dist_spec(
                store.coords@[c],
                store.coords@[goal as int],
            ) < cur_goal_sq && #[trigger] hop_bridgeable(
                *store,
                current as int,
                c,
                limit as int,
            ) implies exists|m: int|
            0 <= m < cands@.len() && (#[trigger] cands@[m]).1 == c by {
            let g = choose|g: int|
                0 <= g < store.spec_len() && store.kinds@[g] == StarKind::General
                    && #[trigger] bridge_ok(
                    store.coords@[current as int],
                    store.coords@[g],
                    store.coords@[c],
                    limit as int,
                );
            crate::geom::lemma_two_leg_reach(
                cpt,
                store.coords@[g],
                store.coords@[c],
                limit as int,
            );
            crate::geom::lemma_sq_dist_sym(store.coords@[c], cpt);
            crate::geom::lemma_sq_dist_bounds(store.coords@[c], cpt);
            let dq = sq_dist_spec(store.coords@[c], cpt);
            assert(dq <= r_sq);
            lemma_radius_query_exact(*store, *neutron_index, cpt, r_sq, c as usize, dq as u64);
            assert(nseq.contains((c as usize, dq as u64)));
            let j = choose|j: int| 0 <= j < nseq.len() && nseq[j] == (c as usize, dq as u64);
            assert(nseq[j].0 != current);
        }
    }
    while cands.len() > 0
        invariant
            forall|j: int|
                0 <= j < cands@.len() ==> cand_ok(*store, goal, cur_goal_sq, #[trigger] cands@[j]),
            forall|c: int|
                0 <= c < store.spec_len() && store.kinds@[c] == StarKind::Neutron && sq_dist_spec(
                    store.coords@[c],
                    store.coords@[goal as int],
                ) < cur_goal_sq && #[trigger] hop_bridgeable(
                    *store,
                    current as int,
                    c,
                    limit as int,
                ) ==> exists|m: int| 0 <= m < cands@.len() && (#[trigger] cands@[m]).1 == c,
        decreases cands@.len(),
    {
        let mut mi: usize = 0;
        let mut ci: usize = 1;
        while ci < cands.len()
            invariant
                mi < ci <= cands@.len(),
                cands@.len() > 0,
                forall|j: int| 0 <= j < ci ==> (#[trigger] cands@[j]).0 >= cands@[mi as int].0,
            decreases cands@.len() - ci,
        {
            if cands[ci].0 < cands[mi].0 {
                mi = ci;
            }
            ci = ci + 1;
        }
        let cand = cands[mi];
        let ghost pre_cands = cands@;
        cands.remove(mi);
        proof {
            assert forall|j: int| 0 <= j < cands@.len() implies cand_ok(
                *store,
                goal,
                cur_goal_sq,
                #[trigger] cands@[j],
            ) by {
                if j < mi {
                    assert(cands@[j] == pre_cands[j]);
                } else {
                    assert(cands@[j] == pre_cands[j + 1]);
                }
            }
        }
        match find_bridge_general(current, cand.1, store, general_index, limit) {
            Some(found) => {
                return Some((cand.1, found.0, found.1));
            },
            None => {
                proof {
                    assert forall|c: int|
                        0 <= c < store.spec_len() && store.kinds@[c] == StarKind::Neutron
                            && sq_dist_spec(
                            store.coords@[c],
                            store.coords@[goal as int],
                        ) < cur_goal_sq && #[trigger] hop_bridgeable(
                            *store,
                            current as int,
                            c,
                            limit as int,
                        ) implies exists|m: int|
                        0 <= m < cands@.len() && (#[trigger] cands@[m]).1 == c by {
                        if c == cand.1 as int {
                            let g = choose|g: int|
                                0 <= g < store.spec_len() && store.kinds@[g] == StarKind::General
                                    && #[trigger] bridge_ok(
                                    store.coords@[current as int],
                                    store.coords@[g],
                                    store.coords@[c],
                                    limit as int,
                                );
                            assert(false);
                        } else {
                            let m = choose|m: int|
                                0 <= m < pre_cands.len() && (#[trigger] pre_cands[m]).1 == c;
                            assert(pre_cands[mi as int].1 == cand.1);
                            if m < mi {
                                assert(cands@[m].1 == c);
                            } else {
                                assert(cands@[m - 1] == pre_cands[m]);
                            }
                        }
                    }
                }
            },
        }
    }
    proof {
        if can_advance(*store, current as int, goal as int, limit as int) {
            let c = choose|c: int|
                0 <= c < store.spec_len() && store.kinds@[c] == StarKind::Neutron && sq_dist_spec(
                    store.coords@[c],
                    store.coords@[goal as int],
                ) < sq_dist_spec(
                    store.coords@[current as int],
                    store.coords@[goal as int],
                ) && #[trigger] hop_bridgeable(*store, current as int, c, limit as int);
            assert(false);
        }
    }
    None
}

/// Witness that the search was exhausted: a committed prefix of hops out of
/// `start` — bridged, over neutron stars, each hop strictly closer to the
/// goal and feasible within the ceiling — whose head is short of the goal
/// and cannot advance at a working limit `l` that the next escalation step
/// would push past [`LIMIT_CEILING`].
pub open spec fn search_exhausted(
    store: Store,
    start: usize,
    goal: usize,
    base_limit: u64,
    hops: Seq<usize>,
    bridges: Seq<usize>,
    l: int,
) -> bool {
    &&& hops.len() == bridges.len() + 1
    &&& hops[0] == start
    &&& hops.last() != goal
    &&& forall|i: int|
        0 <= i < hops.len() ==> (#[trigger] hops[i]) < store.spec_len() && store.kinds@[hops[i] as int]
            == StarKind::Neutron
    &&& forall|i: int|
        0 <= i < bridges.len() ==> (#[trigger] bridges[i]) < store.spec_len()
            && store.kinds@[bridges[i] as int] == StarKind::General
    &&& forall|i: int|
        0 <= i < bridges.len() ==> bridge_key(
            store.coords@[(#[trigger] hops[i]) as int],
            store.coords@[bridges[i] as int],
            store.coords@[hops[i + 1] as int],
        ) <= BOOST_SQ * (LIMIT_CEILING as int * LIMIT_CEILING as int)
    &&& forall|i: int|
        0 <= i < bridges.len() ==> sq_dist_spec(
            store.coords@[(#[trigger] hops[i + 1]) as int],
            store.coords@[goal as int],
        ) < sq_dist_spec(store.coords@[hops[i] as int], store.coords@[goal as int])
    &&& base_limit <= l <= LIMIT_CEILING
    &&& LIMIT_CEILING - LIMIT_STEP < l
    &&& !can_advance(store, hops.last() as int, goal as int, l)
}

/// Greedy, limit-escalating search for a route from `start` to `goal`.
///
/// Per round it commits the first next hop, in order of increasing distance
/// to the goal, for which [`find_bridge_general`] accepts a bridge at the
/// working limit.  When no candidate works the limit grows by
/// [`LIMIT_STEP`]; past [`LIMIT_CEILING`] the search reports failure.  On
/// success the route satisfies [`route_wf`]: in particular every committed
/// hop strictly decreases the distance to the goal, and the reported
/// requirement is exactly the largest hop key.  A start equal to the goal
/// succeeds immediately with an empty route.  The search is a greedy
/// heuristic: failure means the escalation ceiling was exhausted — the
/// contract then hands out a [`search_exhausted`] witness — not that no
/// route exists at a larger range.
///
/// The base limit is capped at [`LIMIT_CEILING`] by design: the ceiling is
/// the largest range the escalation ever tests, and the cap also keeps the
/// squared-range arithmetic (`(7 * limit)^2`, `36 * limit^2`) inside `u64`.
#[verifier::rlimit(100)]
pub fn greedy_fast_route(
    start: usize,
    goal: usize,
    store: &Store,
    neutron_index: &SpatialIndex,
    general_index: &SpatialIndex,
    base_limit: u64,
) -> (r: Option<Route>)
    requires
        store.wf(),
        start < store.spec_len(),
        goal < store.spec_len(),
        store.kinds@[start as int] == StarKind::Neutron,
        store.kinds@[goal as int] == StarKind::Neutron,
        neutron_index.valid_for(*store),
        neutron_index.kind == StarKind::Neutron,
        general_index.valid_for(*store),
        general_index.kind == StarKind::General,
        1 <= base_limit <= LIMIT_CEILING,
    ensures
        (match r {
            Some(rt) => route_wf(*store, start, goal, rt),
            None => true,
        }),
        start == goal ==> (r matches Some(rt) && rt.bridges@.len() == 0 && rt.required_key == 0
            && rt.jumps == 0),
        r is None ==> exists|hops: Seq<usize>, bridges: Seq<usize>, l: int|
            search_exhausted(*store, start, goal, base_limit, hops, bridges, l),
{
    let _sl = store.len();
    let mut limit = base_limit;
    let mut current = start;
    let mut bridges: Vec<usize> = Vec::new();
    let mut hops: Vec<usize> = Vec::new();
    hops.push(start);
    let mut required_key: u64 = 0;
    proof {
        crate::geom::lemma_sq_dist_bounds(
            store.coords@[start as int],
            store.coords@[goal as int],
        );
    }
    while current != goal
        invariant
            store.wf(),
            store.spec_len() <= usize::MAX,
            start < store.spec_len(),
            goal < store.spec_len(),
            store.kinds@[start as int] == StarKind::Neutron,
            store.kinds@[goal as int] == StarKind::Neutron,
            neutron_index.valid_for(*store),
            neutron_index.kind == StarKind::Neutron,
            general_index.valid_for(*store),
            general_index.kind == StarKind::General,
            1 <= base_limit <= LIMIT_CEILING,
            current < store.spec_len(),
            store.kinds@[current as int] == StarKind::Neutron,
            start == goal ==> current == goal && bridges@.len() == 0 && required_key == 0,
            base_limit <= limit <= LIMIT_CEILING,
            hops@.len() == bridges@.len() + 1,
            hops@[0] == start,
            hops@.last() == current,
            forall|i: int|
                0 <= i < hops@.len() ==> (#[trigger] hops@[i]) < store.spec_len()
                    && store.kinds@[hops@[i] as int] == StarKind::Neutron,
            forall|i: int|
                0 <= i < bridges@.len() ==> (#[trigger] bridges@[i]) < store.spec_len()
                    && store.kinds@[bridges@[i] as int] == StarKind::General,
            forall|i: int|
                0 <= i < bridges@.len() ==> bridge_key(
                    store.coords@[(#[trigger] hops@[i]) as int],
                    store.coords@[bridges@[i] as int],
                    store.coords@[hops@[i + 1] as int],
                ) <= required_key,
            forall|i: int|
                0 <= i < bridges@.len() ==> sq_dist_spec(
                    store.coords@[(#[trigger] hops@[i + 1]) as int],
                    store.coords@[goal as int],
                ) < sq_dist_spec(store.coords@[hops@[i] as int], store.coords@[goal as int]),
            bridges@.len() + sq_dist_spec(store.coords@[current as int], store.coords@[goal as int])
                <= sq_dist_spec(store.coords@[start as int], store.coords@[goal as int]),
            bridges@.len() == 0 ==> required_key == 0,
            bridges@.len() > 0 ==> exists|i: int|
                0 <= i < bridges@.len() && bridge_key(
                    store.coords@[(#[trigger] hops@[i]) as int],
                    store.coords@[bridges@[i] as int],
                    store.coords@[hops@[i + 1] as int],
                ) == required_key,
            required_key <= BOOST_SQ * (LIMIT_CEILING as int * LIMIT_CEILING as int),
        decreases sq_dist_spec(store.coords@[current as int], store.coords@[goal as int]),
            LIMIT_CEILING + LIMIT_STEP - limit,
    {
        proof {
            crate::geom::lemma_sq_dist_bounds(
                store.coords@[current as int],
                store.coords@[goal as int],
            );
        }
        match try_advance(current, goal, store, neutron_index, general_index, limit) {
            Some(adv) => {
                proof {
                    assert(
                        BOOST_SQ * (limit as int * limit as int) <= BOOST_SQ * (
                        LIMIT_CEILING as int * LIMIT_CEILING as int)) by (nonlinear_arith)
                        requires
                            1 <= limit <= LIMIT_CEILING,
                    ;
                    crate::geom::lemma_sq_dist_bounds(
                        store.coords@[adv.0 as int],
                        store.coords@[goal as int],
                    );
                }
                let ghost old_len = bridges@.len();
                let ghost old_hops = hops@;
                let ghost old_bridges = bridges@;
                let ghost old_required = required_key;
                bridges.push(adv.1);
                hops.push(adv.0);
                if adv.2 > required_key {
                    required_key = adv.2;
                }
                current = adv.0;
                proof {
                    assert(hops@ == old_hops.push(adv.0));
                    assert(bridges@ == old_bridges.push(adv.1));
                    assert(hops@[old_len as int] == old_hops.last());
                    if adv.2 > old_required {
                        assert(bridge_key(
                            store.coords@[hops@[old_len as int] as int],
                            store.coords@[bridges@[old_len as int] as int],
                            store.coords@[hops@[old_len as int + 1] as int],
                        ) == required_key);
                    } else {
                        if old_len > 0 {
                            let w = choose|i: int|
                                0 <= i < old_len && bridge_key(
                                    store.coords@[(#[trigger] old_hops[i]) as int],
                                    store.coords@[old_bridges[i] as int],
                                    store.coords@[old_hops[i + 1] as int],
                                ) == old_required;
                            assert(hops@[w] == old_hops[w] && hops@[w + 1] == old_hops[w + 1]
                                && bridges@[w] == old_bridges[w]);
                            assert(bridge_key(
                                store.coords@[hops@[w] as int],
                                store.coords@[bridges@[w] as int],
                                store.coords@[hops@[w + 1] as int],
                            ) == required_key);
                        }
                    }
                }
            },
            None => {
                let ghost l0 = limit;
                limit = limit + LIMIT_STEP;
                if limit > LIMIT_CEILING {
                    proof {
                        assert(search_exhausted(
                            *store,
                            start,
                            goal,
                            base_limit,
                            hops@,
                            bridges@,
                            l0 as int,
                        ));
                    }
                    return None;
                }
            },
        }
    }
    proof {
        crate::geom::lemma_sq_dist_bounds(store.coords@[start as int], store.coords@[goal as int]);
        crate::geom::lemma_sq_dist_bounds(
            store.coords@[current as int],
            store.coords@[goal as int],
        );
    }
    let jumps: u64 = (bridges.len() as u64) * 2;
    Some(Route { bridges, hops, required_key, jumps })
}

} // verus!
