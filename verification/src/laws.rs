//! Laws of the admission walk: what one walk of the route table does to the
//! cell table, stated over the specification functions that
//! `check_and_apply_limits` is proved against.

use vstd::prelude::*;

use crate::gcra::{gcra_admits, gcra_candidate, gcra_wait};
use crate::middleware::{cell_key, spec_tat_of, spec_walk_limits, spec_walk_routes, Verdict};
use crate::table::CellKey;
use crate::types::{spec_emission_interval, RateLimit, RequestParts, Route, ThrottleBehavior};

verus! {

/// The cell of limit `l` of route `ri` was admitted at `now` against `cells`,
/// and in `after` its TAT stands advanced by exactly one emission interval
/// past its value in `cells` or past `now`, whichever is later.
pub open spec fn limit_cell_advanced(
    limits: Seq<RateLimit>,
    ri: int,
    cells: Map<CellKey, u64>,
    now: u64,
    after: Map<CellKey, u64>,
    l: int,
) -> bool {
    &&& gcra_admits(
        spec_tat_of(cells, cell_key(ri, l)),
        now,
        spec_emission_interval(limits[l].requests, limits[l].window_nanos),
        limits[l].window_nanos,
    )
    &&& after.dom().contains(cell_key(ri, l))
    &&& after[cell_key(ri, l)] == gcra_candidate(
        spec_tat_of(cells, cell_key(ri, l)),
        now,
        spec_emission_interval(limits[l].requests, limits[l].window_nanos),
    )
}

/// The cell of limit `l` of route `r` was admitted at `now` against `cells`
/// and stands advanced in `after`.
pub open spec fn route_cell_advanced(
    routes: Seq<Route>,
    cells: Map<CellKey, u64>,
    now: u64,
    after: Map<CellKey, u64>,
    r: int,
    l: int,
) -> bool {
    limit_cell_advanced(routes[r].limits@, r, cells, now, after, l)
}

/// In `after`, the cell of limit `l` of route `r` refuses an acquire at
/// `now`.
pub open spec fn route_cell_saturated(
    routes: Seq<Route>,
    now: u64,
    after: Map<CellKey, u64>,
    r: int,
    l: int,
) -> bool {
    !gcra_admits(
        spec_tat_of(after, cell_key(r, l)),
        now,
        spec_emission_interval(routes[r].limits@[l].requests, routes[r].limits@[l].window_nanos),
        routes[r].limits@[l].window_nanos,
    )
}

/// The wait the cell of limit `l` of route `r` reports at `now` in `after`.
pub open spec fn route_cell_wait(
    routes: Seq<Route>,
    now: u64,
    after: Map<CellKey, u64>,
    r: int,
    l: int,
) -> u64 {
    gcra_wait(
        spec_tat_of(after, cell_key(r, l)),
        now,
        spec_emission_interval(routes[r].limits@[l].requests, routes[r].limits@[l].window_nanos),
        routes[r].limits@[l].window_nanos,
    )
}

/// A walk over one route's limits leaves alone every key it does not visit.
proof fn lemma_walk_limits_untouched(
    limits: Seq<RateLimit>,
    ri: int,
    cells: Map<CellKey, u64>,
    now: u64,
    li: int,
    key: CellKey,
)
    requires
        forall|l: int| li <= l < limits.len() ==> key != #[trigger] cell_key(ri, l),
    ensures
        ({
            let w = spec_walk_limits(limits, ri, cells, now, li);
            &&& w.1.dom().contains(key) == cells.dom().contains(key)
            &&& spec_tat_of(w.1, key) == spec_tat_of(cells, key)
        }),
    decreases limits.len() - li,
{
    if li < 0 || li >= limits.len() {
    } else {
        let l0 = limits[li];
        let ei = spec_emission_interval(l0.requests, l0.window_nanos);
        let k0 = cell_key(ri, li);
        let tat = spec_tat_of(cells, k0);
        assert(key != k0);
        if gcra_admits(tat, now, ei, l0.window_nanos) {
            lemma_walk_limits_untouched(
                limits,
                ri,
                cells.insert(k0, gcra_candidate(tat, now, ei)),
                now,
                li + 1,
                key,
            );
        }
    }
}

/// A walk over the route table leaves alone every key that belongs to no
/// matching route.
proof fn lemma_walk_routes_untouched(
    routes: Seq<Route>,
    req: RequestParts,
    cells: Map<CellKey, u64>,
    now: u64,
    ri: int,
    key: CellKey,
)
    requires
        forall|r: int, l: int| #![trigger cell_key(r, l)]
            ri <= r < routes.len() && routes[r].spec_matches(&req) && 0 <= l
                < routes[r].limits@.len() ==> key != cell_key(r, l),
    ensures
        ({
            let w = spec_walk_routes(routes, req, cells, now, ri);
            &&& w.1.dom().contains(key) == cells.dom().contains(key)
            &&& spec_tat_of(w.1, key) == spec_tat_of(cells, key)
        }),
    decreases routes.len() - ri,
{
    if ri < 0 || ri >= routes.len() {
    } else {
        let route = routes[ri];
        if !route.spec_matches(&req) {
            lemma_walk_routes_untouched(routes, req, cells, now, ri + 1, key);
        } else {
            assert forall|l: int| 0 <= l < route.limits@.len() implies key != #[trigger] cell_key(
                ri,
                l,
            ) by {
                assert(routes[ri].spec_matches(&req));
            }
            lemma_walk_limits_untouched(route.limits@, ri, cells, now, 0, key);
            let mid = spec_walk_limits(route.limits@, ri, cells, now, 0);
            if mid.0 is None {
                lemma_walk_routes_untouched(routes, req, mid.1, now, ri + 1, key);
            }
        }
    }
}

proof fn lemma_no_match_rec(
    routes: Seq<Route>,
    req: RequestParts,
    cells: Map<CellKey, u64>,
    now: u64,
    ri: int,
)
    requires
        0 <= ri,
        forall|r: int| 0 <= r < routes.len() ==> !(#[trigger] routes[r]).spec_matches(&req),
    ensures
        spec_walk_routes(routes, req, cells, now, ri) == (Verdict::Admit, cells),
    decreases routes.len() - ri,
{
    if ri >= routes.len() {
    } else {
        lemma_no_match_rec(routes, req, cells, now, ri + 1);
    }
}

/// No-match fast path: a request that matches no route is admitted and the
/// cell table is left exactly as it was.
pub proof fn lemma_unmatched_request_leaves_state(
    routes: Seq<Route>,
    req: RequestParts,
    cells: Map<CellKey, u64>,
    now: u64,
)
    requires
        forall|r: int| 0 <= r < routes.len() ==> !(#[trigger] routes[r]).spec_matches(&req),
    ensures
        spec_walk_routes(routes, req, cells, now, 0) == (Verdict::Admit, cells),
{
    lemma_no_match_rec(routes, req, cells, now, 0);
}

/// Cells are created lazily: a key absent from the cell table whose route
/// does not match the request is still absent after the walk.
pub proof fn lemma_cells_created_lazily(
    routes: Seq<Route>,
    req: RequestParts,
    cells: Map<CellKey, u64>,
    now: u64,
    key: CellKey,
)
    requires
        forall|r: int, l: int| #![trigger cell_key(r, l)]
            0 <= r < routes.len() && routes[r].spec_matches(&req) && 0 <= l
                < routes[r].limits@.len() ==> key != cell_key(r, l),
        !cells.dom().contains(key),
    ensures
        !spec_walk_routes(routes, req, cells, now, 0).1.dom().contains(key),
{
    lemma_walk_routes_untouched(routes, req, cells, now, 0, key);
}

/// When a walk over one route's limits admits throughout, every visited cell
/// admitted at `now` and stands advanced in the table the walk leaves.
proof fn lemma_walk_limits_advance(
    limits: Seq<RateLimit>,
    ri: int,
    cells: Map<CellKey, u64>,
    now: u64,
    li: int,
)
    requires
        0 <= li,
        limits.len() <= usize::MAX,
        spec_walk_limits(limits, ri, cells, now, li).0 is None,
    ensures
        forall|l: int|
            li <= l < limits.len() ==> #[trigger] limit_cell_advanced(
                limits,
                ri,
                cells,
                now,
                spec_walk_limits(limits, ri, cells, now, li).1,
                l,
            ),
    decreases limits.len() - li,
{
    if li >= limits.len() {
    } else {
        let w = spec_walk_limits(limits, ri, cells, now, li);
        let l0 = limits[li];
        let ei0 = spec_emission_interval(l0.requests, l0.window_nanos);
        let k0 = cell_key(ri, li);
        let tat0 = spec_tat_of(cells, k0);
        assert(gcra_admits(tat0, now, ei0, l0.window_nanos));
        let cells1 = cells.insert(k0, gcra_candidate(tat0, now, ei0));
        assert(w == spec_walk_limits(limits, ri, cells1, now, li + 1));
        lemma_walk_limits_advance(limits, ri, cells1, now, li + 1);
        assert forall|l: int| li + 1 <= l < limits.len() implies k0 != #[trigger] cell_key(
            ri,
            l,
        ) by {
            assert(li as usize != l as usize);
        }
        lemma_walk_limits_untouched(limits, ri, cells1, now, li + 1, k0);
        assert forall|l: int| li <= l < limits.len() implies #[trigger] limit_cell_advanced(
            limits,
            ri,
            cells,
            now,
            w.1,
            l,
        ) by {
            if l == li {
                assert(spec_tat_of(w.1, k0) == spec_tat_of(cells1, k0));
                assert(w.1.dom().contains(k0));
            } else {
                let key = cell_key(ri, l);
                assert(key != k0) by {
                    assert(li as usize != l as usize);
                }
                assert(limit_cell_advanced(limits, ri, cells1, now, w.1, l));
                assert(spec_tat_of(cells1, key) == spec_tat_of(cells, key));
            }
        }
    }
}

/// When the whole walk admits, every matching cell admitted at `now` and
/// stands advanced in the table the walk leaves.
proof fn lemma_walk_routes_advance(
    routes: Seq<Route>,
    req: RequestParts,
    cells: Map<CellKey, u64>,
    now: u64,
    ri: int,
)
    requires
        0 <= ri,
        routes.len() <= usize::MAX,
        forall|r: int|
            0 <= r < routes.len() ==> (#[trigger] routes[r]).limits@.len() <= usize::MAX,
        spec_walk_routes(routes, req, cells, now, ri).0 is Admit,
    ensures
        forall|r: int, l: int| #![trigger route_cell_advanced(routes, cells, now, spec_walk_routes(routes, req, cells, now, ri).1, r, l)]
            ri <= r < routes.len() && routes[r].spec_matches(&req) && 0 <= l
                < routes[r].limits@.len() ==> route_cell_advanced(
                routes,
                cells,
                now,
                spec_walk_routes(routes, req, cells, now, ri).1,
                r,
                l,
            ),
    decreases routes.len() - ri,
{
    if ri >= routes.len() {
    } else {
        let w = spec_walk_routes(routes, req, cells, now, ri);
        let route = routes[ri];
        if !route.spec_matches(&req) {
            lemma_walk_routes_advance(routes, req, cells, now, ri + 1);
        } else {
            let mid = spec_walk_limits(route.limits@, ri, cells, now, 0);
            assert(mid.0 is None);
            assert(w == spec_walk_routes(routes, req, mid.1, now, ri + 1));
            assert(route.limits@.len() <= usize::MAX);
            lemma_walk_limits_advance(route.limits@, ri, cells, now, 0);
            lemma_walk_routes_advance(routes, req, mid.1, now, ri + 1);
            assert forall|r: int, l: int|
                ri <= r < routes.len() && routes[r].spec_matches(&req) && 0 <= l
                    < routes[r].limits@.len() implies #[trigger] route_cell_advanced(
                routes,
                cells,
                now,
                w.1,
                r,
                l,
            ) by {
                let key = cell_key(r, l);
                if r == ri {
                    // Advanced by this route's limits walk; later routes
                    // leave the key alone.
                    assert(limit_cell_advanced(route.limits@, ri, cells, now, mid.1, l));
                    assert forall|r2: int, l2: int| #![trigger cell_key(r2, l2)]
                        ri + 1 <= r2 < routes.len() && routes[r2].spec_matches(&req) && 0 <= l2
                            < routes[r2].limits@.len() implies key != cell_key(r2, l2) by {
                        assert(r as usize != r2 as usize);
                    }
                    lemma_walk_routes_untouched(routes, req, mid.1, now, ri + 1, key);
                    assert(spec_tat_of(w.1, key) == spec_tat_of(mid.1, key));
                    assert(w.1.dom().contains(key) == mid.1.dom().contains(key));
                } else {
                    // Untouched by this route's limits walk; advanced later.
                    assert(route_cell_advanced(routes, mid.1, now, w.1, r, l));
                    assert forall|l2: int| 0 <= l2 < route.limits@.len() implies key
                        != #[trigger] cell_key(ri, l2) by {
                        assert(r as usize != ri as usize);
                    }
                    lemma_walk_limits_untouched(route.limits@, ri, cells, now, 0, key);
                    assert(spec_tat_of(mid.1, key) == spec_tat_of(cells, key));
                }
            }
        }
    }
}

/// Admission consumes one slot in every matching cell. When the walk over a
/// route table admits a request, every cell of every matching route was
/// admitted at `now`, and its TAT in the final table is exactly one emission
/// interval past its pre-walk TAT or past `now`, whichever is later.
pub proof fn lemma_admission_advances_matching_cells(
    routes: Seq<Route>,
    req: RequestParts,
    cells: Map<CellKey, u64>,
    now: u64,
)
    requires
        routes.len() <= usize::MAX,
        forall|r: int|
            0 <= r < routes.len() ==> (#[trigger] routes[r]).limits@.len() <= usize::MAX,
        spec_walk_routes(routes, req, cells, now, 0).0 is Admit,
    ensures
        forall|r: int, l: int| #![trigger route_cell_advanced(routes, cells, now, spec_walk_routes(routes, req, cells, now, 0).1, r, l)]
            0 <= r < routes.len() && routes[r].spec_matches(&req) && 0 <= l
                < routes[r].limits@.len() ==> route_cell_advanced(
                routes,
                cells,
                now,
                spec_walk_routes(routes, req, cells, now, 0).1,
                r,
                l,
            ),
{
    lemma_walk_routes_advance(routes, req, cells, now, 0);
}

/// A walk over one route's limits that reports a wait has a saturated cell:
/// in the table the walk leaves, that cell refuses an acquire at `now`, and
/// the reported wait is exactly that cell's.
proof fn lemma_walk_limits_failure(
    limits: Seq<RateLimit>,
    ri: int,
    cells: Map<CellKey, u64>,
    now: u64,
    li: int,
)
    requires
        0 <= li,
        spec_walk_limits(limits, ri, cells, now, li).0 is Some,
    ensures
        exists|l: int|
            li <= l < limits.len() && !gcra_admits(
                spec_tat_of(
                    spec_walk_limits(limits, ri, cells, now, li).1,
                    #[trigger] cell_key(ri, l),
                ),
                now,
                spec_emission_interval(limits[l].requests, limits[l].window_nanos),
                limits[l].window_nanos,
            ) && spec_walk_limits(limits, ri, cells, now, li).0 == Some(
                gcra_wait(
                    spec_tat_of(spec_walk_limits(limits, ri, cells, now, li).1, cell_key(ri, l)),
                    now,
                    spec_emission_interval(limits[l].requests, limits[l].window_nanos),
                    limits[l].window_nanos,
                ),
            ),
    decreases limits.len() - li,
{
    let w = spec_walk_limits(limits, ri, cells, now, li);
    let l0 = limits[li];
    let ei0 = spec_emission_interval(l0.requests, l0.window_nanos);
    let k0 = cell_key(ri, li);
    let tat0 = spec_tat_of(cells, k0);
    if gcra_admits(tat0, now, ei0, l0.window_nanos) {
        let cells1 = cells.insert(k0, gcra_candidate(tat0, now, ei0));
        assert(w == spec_walk_limits(limits, ri, cells1, now, li + 1));
        lemma_walk_limits_failure(limits, ri, cells1, now, li + 1);
    } else {
        assert(spec_tat_of(w.1, k0) == tat0);
        assert(cell_key(ri, li) == k0);
    }
}

/// A refused admission names a saturated cell. When the walk over the route
/// table ends in rejection or delay, some matching cell is saturated at `now`
/// in the final table, and the verdict carries exactly that cell's wait,
/// turned into rejection or delay by that route's overflow policy. Cells
/// visited earlier in the walk keep their advanced TATs: consumption is not
/// rolled back.
pub proof fn lemma_refusal_has_saturated_cell(
    routes: Seq<Route>,
    req: RequestParts,
    cells: Map<CellKey, u64>,
    now: u64,
    ri: int,
)
    requires
        0 <= ri,
        !(spec_walk_routes(routes, req, cells, now, ri).0 is Admit),
    ensures
        exists|r: int, l: int| #![trigger route_cell_saturated(routes, now, spec_walk_routes(routes, req, cells, now, ri).1, r, l)]
            ri <= r < routes.len() && routes[r].spec_matches(&req) && 0 <= l
                < routes[r].limits@.len() && route_cell_saturated(
                routes,
                now,
                spec_walk_routes(routes, req, cells, now, ri).1,
                r,
                l,
            ) && spec_walk_routes(routes, req, cells, now, ri).0 == (
            if routes[r].on_limit == ThrottleBehavior::Error {
                Verdict::Reject(
                    route_cell_wait(routes, now, spec_walk_routes(routes, req, cells, now, ri).1, r, l),
                )
            } else {
                Verdict::Delay(
                    route_cell_wait(routes, now, spec_walk_routes(routes, req, cells, now, ri).1, r, l),
                )
            }),
    decreases routes.len() - ri,
{
    let w = spec_walk_routes(routes, req, cells, now, ri);
    if ri >= routes.len() {
        assert(false);
    }
    let route = routes[ri];
    if !route.spec_matches(&req) {
        assert(w == spec_walk_routes(routes, req, cells, now, ri + 1));
        lemma_refusal_has_saturated_cell(routes, req, cells, now, ri + 1);
    } else {
        let mid = spec_walk_limits(route.limits@, ri, cells, now, 0);
        match mid.0 {
            None => {
                assert(w == spec_walk_routes(routes, req, mid.1, now, ri + 1));
                lemma_refusal_has_saturated_cell(routes, req, mid.1, now, ri + 1);
            },
            Some(d) => {
                lemma_walk_limits_failure(route.limits@, ri, cells, now, 0);
                let lw = choose|l: int|
                    0 <= l < route.limits@.len() && !gcra_admits(
                        spec_tat_of(mid.1, #[trigger] cell_key(ri, l)),
                        now,
                        spec_emission_interval(
                            route.limits@[l].requests,
                            route.limits@[l].window_nanos,
                        ),
                        route.limits@[l].window_nanos,
                    ) && mid.0 == Some(
                        gcra_wait(
                            spec_tat_of(mid.1, cell_key(ri, l)),
                            now,
                            spec_emission_interval(
                                route.limits@[l].requests,
                                route.limits@[l].window_nanos,
                            ),
                            route.limits@[l].window_nanos,
                        ),
                    );
                assert(w.1 == mid.1);
                assert(route_cell_saturated(routes, now, w.1, ri as int, lw));
                assert(route_cell_wait(routes, now, w.1, ri as int, lw) == d);
            },
        }
    }
}

} // verus!
