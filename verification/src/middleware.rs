//! The admission engine: walks the route table for each request, acquires a
//! slot from every matching rate-limit cell, and decides whether the request
//! proceeds, must wait, or is rejected.

use vstd::prelude::*;

use crate::builder::RateLimitBuilder;
use crate::clock::{duration_as_nanos, instant_elapsed, instant_now};
use crate::error::RateLimitError;
use crate::gcra::{gcra_admits, gcra_candidate, gcra_wait, GcraState};
use crate::table::{
    cell_map, cells_get, cells_insert, cells_keys, cells_len, cells_new, cells_remove,
    empty_cells, CellKey, CellTable,
};
use crate::types::{spec_emission_interval, RateLimit, RequestParts, Route, ThrottleBehavior};

verus! {

/// The decision the engine hands back for one walk of the route table.
#[derive(Debug, Clone, Copy, PartialEq, Eq, Structural)]
pub enum AdmitOutcome {
    /// Every matching cell admitted the request; it may proceed.
    Admitted,
    /// A matching route with overflow policy `Error` was saturated; the
    /// request consumed no slot in the saturated cell.
    Limited(RateLimitError),
    /// A matching route with overflow policy `Delay` was saturated: suspend
    /// for the carried duration in nanoseconds (jitter included), then walk
    /// the whole table again.
    Delayed(u64),
}

/// The verdict of the walk, before the overflow policy's jitter is drawn.
pub enum Verdict {
    /// All matching cells admitted.
    Admit,
    /// A saturated cell under policy `Error`; carries the exact wait.
    Reject(u64),
    /// A saturated cell under policy `Delay`; carries the exact wait.
    Delay(u64),
}

/// Every route in the table is well-formed.
pub open spec fn routes_wf(routes: Seq<Route>) -> bool {
    forall|i: int| 0 <= i < routes.len() ==> (#[trigger] routes[i]).wf()
}

/// The TAT a key stands for: the stored value, or zero for a cell not yet
/// created.
pub open spec fn spec_tat_of(cells: Map<CellKey, u64>, key: CellKey) -> u64 {
    if cells.dom().contains(key) {
        cells[key]
    } else {
        0
    }
}

/// The key of the cell for limit `li` of route `ri`.
pub open spec fn cell_key(ri: int, li: int) -> CellKey {
    (ri as usize, li as usize)
}

/// Walking the limits of one matching route, starting at limit index `li`:
/// acquire from each cell in order. Returns the wait reported by the first
/// saturated cell (or `None` if every cell admits) and the cell table as the
/// walk leaves it. A visited cell is created if absent; a saturated cell's
/// TAT is left unchanged.
pub open spec fn spec_walk_limits(
    limits: Seq<RateLimit>,
    ri: int,
    cells: Map<CellKey, u64>,
    now: u64,
    li: int,
) -> (Option<u64>, Map<CellKey, u64>)
    decreases limits.len() - li,
{
    if li < 0 || li >= limits.len() {
        (None, cells)
    } else {
        let l = limits[li];
        let ei = spec_emission_interval(l.requests, l.window_nanos);
        let key = cell_key(ri, li);
        let tat = spec_tat_of(cells, key);
        if gcra_admits(tat, now, ei, l.window_nanos) {
            spec_walk_limits(
                limits,
                ri,
                cells.insert(key, gcra_candidate(tat, now, ei)),
                now,
                li + 1,
            )
        } else {
            (Some(gcra_wait(tat, now, ei, l.window_nanos)), cells.insert(key, tat))
        }
    }
}

/// Walking the route table from route index `ri` at time `now`: every
/// matching route contributes all its limits in order; the first saturated
/// cell stops the walk with the route's overflow policy.
pub open spec fn spec_walk_routes(
    routes: Seq<Route>,
    req: RequestParts,
    cells: Map<CellKey, u64>,
    now: u64,
    ri: int,
) -> (Verdict, Map<CellKey, u64>)
    decreases routes.len() - ri,
{
    if ri < 0 || ri >= routes.len() {
        (Verdict::Admit, cells)
    } else {
        let route = routes[ri];
        if !route.spec_matches(&req) {
            spec_walk_routes(routes, req, cells, now, ri + 1)
        } else {
            let walked = spec_walk_limits(route.limits@, ri, cells, now, 0);
            match walked.0 {
                None => spec_walk_routes(routes, req, walked.1, now, ri + 1),
                Some(d) => {
                    if route.on_limit == ThrottleBehavior::Error {
                        (Verdict::Reject(d), walked.1)
                    } else {
                        (Verdict::Delay(d), walked.1)
                    }
                },
            }
        }
    }
}

/// Whether a cleanup pass at time `now` keeps an entry: its key must be in
/// bounds against the route table, and its TAT must not have receded two
/// windows into the past — an entry whose TAT lies that far back has been
/// fully recovered for at least one extra window, so removing it is the same
/// as leaving a fresh cell in its place.
pub open spec fn spec_keep_entry(routes: Seq<Route>, key: CellKey, tat: u64, now: u64) -> bool {
    &&& (key.0 as int) < routes.len()
    &&& (key.1 as int) < routes[key.0 as int].limits@.len()
    &&& ({
        let w = routes[key.0 as int].limits@[key.1 as int].window_nanos;
        tat > now.saturating_sub(w.saturating_add(w))
    })
}

/// The cell table after a cleanup pass at time `now`: exactly the kept
/// entries, with their values unchanged.
pub open spec fn spec_cleaned(routes: Seq<Route>, cells: Map<CellKey, u64>, now: u64) -> Map<
    CellKey,
    u64,
> {
    Map::new(
        |k: CellKey| cells.dom().contains(k) && spec_keep_entry(routes, k, cells[k], now),
        |k: CellKey| cells[k],
    )
}

/// Relies on rand::random_range: a uniform draw from `0..=max`. Only the
/// bound is promised; the value is random.
#[verifier::external_body]
fn jitter_below(max: u64) -> (r: u64)
    ensures
        r <= max,
{
    rand::random_range(0..=max)
}

/// The rate limiting middleware.
///
/// Owns the route table (immutable after construction), the concurrent state
/// table of GCRA cells (created lazily, one per `(route, limit)` pair ever
/// exercised), and the monotonic reference instant all timestamps are
/// relative to.
#[derive(Debug)]
pub struct RateLimitMiddleware {
    pub(crate) routes: Vec<Route>,
    pub(crate) state: CellTable,
    pub(crate) start_instant: std::time::Instant,
}

impl RateLimitMiddleware {
    /// The configured route table.
    pub closed spec fn spec_routes(&self) -> Seq<Route> {
        self.routes@
    }

    /// The live cells: each key's stored TAT.
    pub closed spec fn cells(&self) -> Map<CellKey, u64> {
        cell_map(self.state)
    }

    /// Well-formedness: every configured route is well-formed, and the cell
    /// table is finite.
    pub open spec fn wf(&self) -> bool {
        &&& routes_wf(self.spec_routes())
        &&& self.cells().dom().finite()
    }

    /// Create a new builder for configuring the middleware.
    #[must_use]
    pub fn builder() -> (b: RateLimitBuilder)
        ensures
            b.spec_routes().len() == 0,
    {
        RateLimitBuilder::new()
    }

    /// Assemble a middleware from a finished route table, with an empty state
    /// table and the reference instant taken now.
    pub(crate) fn from_routes(routes: Vec<Route>) -> (m: Self)
        requires
            routes_wf(routes@),
        ensures
            m.wf(),
            m.spec_routes() == routes@,
            m.cells() == empty_cells(),
    {
        let state = cells_new();
        proof {
            assert(empty_cells().dom() =~= Set::<CellKey>::empty());
        }
        RateLimitMiddleware { routes, state, start_instant: instant_now() }
    }

    /// The configured routes, in configuration order.
    pub fn routes(&self) -> (r: &Vec<Route>)
        ensures
            r@ == self.spec_routes(),
    {
        &self.routes
    }

    /// Nanoseconds elapsed on the monotonic clock since this middleware was
    /// built, saturated to the 64-bit range.
    pub fn now_nanos(&self) -> u64 {
        let d = instant_elapsed(&self.start_instant);
        let n: u128 = duration_as_nanos(&d);
        if n > 0xffff_ffff_ffff_ffff_u128 {
            u64::MAX
        } else {
            n as u64
        }
    }

    /// One walk of the route table at time `now`, acquiring a slot from every
    /// matching cell in configuration order.
    ///
    /// The outcome and the cell table afterwards are exactly those of the
    /// specification walk; on a `Delay` verdict with exact wait `d`, the
    /// returned sleep is `d` plus a uniform jitter of at most `d / 2`.
    pub fn check_and_apply_limits(&mut self, req: &RequestParts, now: u64) -> (r: AdmitOutcome)
        requires
            old(self).wf(),
        ensures
            final(self).wf(),
            final(self).spec_routes() == old(self).spec_routes(),
            ({
                let walk = spec_walk_routes(old(self).spec_routes(), *req, old(self).cells(), now, 0);
                &&& final(self).cells() == walk.1
                &&& (match walk.0 {
                    Verdict::Admit => r == AdmitOutcome::Admitted,
                    Verdict::Reject(d) => r == AdmitOutcome::Limited(RateLimitError::RateLimited(d)),
                    Verdict::Delay(d) => (r matches AdmitOutcome::Delayed(s)
                        && d <= s && s <= d.saturating_add(d / 2)),
                })
            }),
    {
        let ghost routes0 = self.routes@;
        let ghost cells0 = cell_map(self.state);
        let n: usize = self.routes.len();
        let mut ri: usize = 0;
        while ri < n
            invariant
                routes0 == old(self).spec_routes(),
                cells0 == old(self).cells(),
                routes_wf(routes0),
                cell_map(self.state).dom().finite(),
                n == self.routes@.len(),
                0 <= ri <= n,
                self.routes@ == routes0,
                self.start_instant == old(self).start_instant,
                spec_walk_routes(routes0, *req, cells0, now, 0)
                    == spec_walk_routes(routes0, *req, cell_map(self.state), now, ri as int),
            decreases n - ri,
        {
            if self.routes[ri].matches(req) {
                let nl: usize = self.routes[ri].limits.len();
                let ghost cells_at_route = cell_map(self.state);
                let ghost limits0 = routes0[ri as int].limits@;
                let mut li: usize = 0;
                while li < nl
                    invariant
                        routes0 == old(self).spec_routes(),
                        cells0 == old(self).cells(),
                        routes_wf(routes0),
                        cell_map(self.state).dom().finite(),
                        n == self.routes@.len(),
                        0 <= ri < n,
                        limits0 == routes0[ri as int].limits@,
                        nl == limits0.len(),
                        0 <= li <= nl,
                        self.routes@ == routes0,
                        self.start_instant == old(self).start_instant,
                        routes0[ri as int].spec_matches(req),
                        spec_walk_limits(limits0, ri as int, cells_at_route, now, 0)
                            == spec_walk_limits(limits0, ri as int, cell_map(self.state), now, li as int),
                        spec_walk_routes(routes0, *req, cells0, now, 0)
                            == spec_walk_routes(routes0, *req, cells_at_route, now, ri as int),
                    decreases nl - li,
                {
                    proof {
                        assert(routes0[ri as int].wf());
                        assert(limits0[li as int].wf());
                    }
                    let limit = self.routes[ri].limits[li];
                    let ei: u64 = limit.emission_interval();
                    let key: CellKey = (ri, li);
                    let ghost cells_before = cell_map(self.state);
                    proof {
                        assert(key == cell_key(ri as int, li as int));
                    }
                    let tat: u64 = match cells_get(&self.state, key) {
                        Some(t) => t,
                        None => {
                            cells_insert(&mut self.state, key, 0);
                            0
                        },
                    };
                    proof {
                        assert(tat == spec_tat_of(cells_before, key));
                        assert(cell_map(self.state) =~= cells_before.insert(key, tat));
                    }
                    let mut cell = GcraState::from_tat(tat);
                    match cell.try_acquire(now, ei, limit.window_nanos) {
                        Ok(()) => {
                            cells_insert(&mut self.state, key, cell.tat());
                            proof {
                                assert(gcra_admits(tat, now, ei, limit.window_nanos));
                                assert(cell.spec_tat() == gcra_candidate(tat, now, ei));
                                assert(cell_map(self.state) =~= cells_before.insert(
                                    key,
                                    gcra_candidate(tat, now, ei),
                                ));
                                assert(spec_walk_limits(limits0, ri as int, cells_before, now, li as int)
                                    == spec_walk_limits(
                                        limits0,
                                        ri as int,
                                        cells_before.insert(key, gcra_candidate(tat, now, ei)),
                                        now,
                                        li as int + 1,
                                    ));
                            }
                            li += 1;
                        },
                        Err(d) => {
                            let ghost walk = spec_walk_routes(routes0, *req, cells0, now, 0);
                            proof {
                                assert(!gcra_admits(tat, now, ei, limit.window_nanos));
                                assert(d == gcra_wait(tat, now, ei, limit.window_nanos));
                                assert(spec_walk_limits(limits0, ri as int, cells_before, now, li as int)
                                    == (Some(d), cells_before.insert(key, tat)));
                                assert(spec_walk_limits(limits0, ri as int, cells_at_route, now, 0)
                                    == (Some(d), cell_map(self.state)));
                                assert(walk == spec_walk_routes(routes0, *req, cells_at_route, now, ri as int));
                                assert(walk.1 == cell_map(self.state));
                            }
                            match self.routes[ri].on_limit {
                                ThrottleBehavior::Error => {
                                    proof {
                                        assert(routes0[ri as int].on_limit == ThrottleBehavior::Error);
                                        assert(walk.0 == Verdict::Reject(d));
                                    }
                                    return AdmitOutcome::Limited(RateLimitError::RateLimited(d));
                                },
                                ThrottleBehavior::Delay => {
                                    proof {
                                        assert(routes0[ri as int].on_limit == ThrottleBehavior::Delay);
                                        assert(walk.0 == Verdict::Delay(d));
                                    }
                                    let jitter: u64 = jitter_below(d / 2);
                                    proof {
                                        assert(d <= d.saturating_add(jitter) <= d.saturating_add(d / 2));
                                    }
                                    return AdmitOutcome::Delayed(d.saturating_add(jitter));
                                },
                            }
                        },
                    }
                }
                proof {
                    assert(spec_walk_limits(limits0, ri as int, cell_map(self.state), now, li as int)
                        == (None::<u64>, cell_map(self.state)));
                    assert(spec_walk_routes(routes0, *req, cells_at_route, now, ri as int)
                        == spec_walk_routes(routes0, *req, cell_map(self.state), now, ri as int + 1));
                }
                ri += 1;
            } else {
                proof {
                    assert(!routes0[ri as int].spec_matches(req));
                    assert(spec_walk_routes(routes0, *req, cell_map(self.state), now, ri as int)
                        == spec_walk_routes(routes0, *req, cell_map(self.state), now, ri as int + 1));
                }
                ri += 1;
            }
        }
        proof {
            assert(spec_walk_routes(routes0, *req, cell_map(self.state), now, n as int)
                == (Verdict::Admit, cell_map(self.state)));
        }
        AdmitOutcome::Admitted
    }

    /// Remove stale state entries, judged against the given time: an entry is
    /// removed when its TAT has receded at least two windows into the past,
    /// or when its key no longer fits the route table.
    pub fn cleanup_at(&mut self, now: u64)
        requires
            old(self).wf(),
        ensures
            final(self).wf(),
            final(self).spec_routes() == old(self).spec_routes(),
            final(self).cells() == spec_cleaned(old(self).spec_routes(), old(self).cells(), now),
    {
        let ghost routes0 = self.routes@;
        let ghost cells0 = cell_map(self.state);
        let keys = cells_keys(&self.state);
        let kn: usize = keys.len();
        let mut i: usize = 0;
        while i < kn
            invariant
                routes0 == old(self).spec_routes(),
                cells0 == old(self).cells(),
                cells0.dom().finite(),
                routes_wf(routes0),
                self.routes@ == routes0,
                self.start_instant == old(self).start_instant,
                kn == keys@.len(),
                0 <= i <= kn,
                keys@.to_set() == cells0.dom(),
                keys@.no_duplicates(),
                forall|k: CellKey| #[trigger] cell_map(self.state).dom().contains(k)
                    <==> cells0.dom().contains(k) && (keys@.take(i as int).contains(k)
                        ==> spec_keep_entry(routes0, k, cells0[k], now)),
                forall|k: CellKey| #[trigger] cell_map(self.state).dom().contains(k)
                    ==> cell_map(self.state)[k] == cells0[k],
                cell_map(self.state).dom().finite(),
            decreases kn - i,
        {
            let key: CellKey = keys[i];
            proof {
                assert(keys@.to_set().contains(key));
                assert(cells0.dom().contains(key));
                if keys@.take(i as int).contains(key) {
                    let j = choose|j: int| 0 <= j < i && (#[trigger] keys@.take(i as int)[j]) == key;
                    assert(keys@[j] == keys@[i as int]);
                    assert(false);
                }
                assert(cell_map(self.state).dom().contains(key));
            }
            let tat: u64 = match cells_get(&self.state, key) {
                Some(t) => t,
                None => 0,
            };
            proof {
                assert(tat == cells0[key]);
            }
            let keep: bool = if key.0 >= self.routes.len() {
                false
            } else if key.1 >= self.routes[key.0].limits.len() {
                false
            } else {
                let w: u64 = self.routes[key.0].limits[key.1].window_nanos;
                tat > now.saturating_sub(w.saturating_add(w))
            };
            proof {
                assert(keep == spec_keep_entry(routes0, key, cells0[key], now));
            }
            if !keep {
                cells_remove(&mut self.state, key);
            }
            proof {
                assert(keys@.take(i as int + 1) =~= keys@.take(i as int).push(key));
                assert forall|k: CellKey| #[trigger] keys@.take(i as int + 1).contains(k)
                    <==> (keys@.take(i as int).contains(k) || k == key) by {
                    if keys@.take(i as int + 1).contains(k) {
                        let j = choose|j: int| 0 <= j < i + 1 && (#[trigger] keys@.take(i as int + 1)[j]) == k;
                        if j < i {
                            assert(keys@.take(i as int)[j] == k);
                        }
                    }
                    if keys@.take(i as int).contains(k) {
                        let j = choose|j: int| 0 <= j < i && (#[trigger] keys@.take(i as int)[j]) == k;
                        assert(keys@.take(i as int + 1)[j] == k);
                    }
                    if k == key {
                        assert(keys@.take(i as int + 1)[i as int] == k);
                    }
                }
            }
            i += 1;
        }
        proof {
            assert(keys@.take(kn as int) =~= keys@);
            assert forall|k: CellKey| cells0.dom().contains(k) implies #[trigger] keys@.contains(
                k,
            ) by {
                assert(keys@.to_set().contains(k));
            }
            assert(cell_map(self.state) =~= spec_cleaned(routes0, cells0, now));
        }
    }

    /// Remove stale state entries, judged against the monotonic clock now.
    /// This is cooperative housekeeping: call it periodically in long-running
    /// programs to keep the state table from growing without bound.
    pub fn cleanup(&mut self)
        requires
            old(self).wf(),
        ensures
            final(self).wf(),
            final(self).spec_routes() == old(self).spec_routes(),
            exists|now: u64|
                final(self).cells() == spec_cleaned(
                    old(self).spec_routes(),
                    old(self).cells(),
                    now,
                ),
    {
        let now: u64 = self.now_nanos();
        self.cleanup_at(now);
    }

    /// Returns the number of live rate limit state entries.
    #[must_use]
    pub fn state_count(&self) -> (n: usize)
        ensures
            n == self.cells().dom().len(),
    {
        cells_len(&self.state)
    }
}

impl Default for RateLimitMiddleware {
    /// A middleware with no routes configured: all requests pass through
    /// without any rate limiting.
    fn default() -> (m: Self)
        ensures
            m.wf(),
            m.spec_routes().len() == 0,
            m.cells() == empty_cells(),
    {
        RateLimitMiddleware::builder().build()
    }
}

} // verus!
