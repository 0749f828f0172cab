//! Builder API for configuring the rate limiting middleware.

use vstd::prelude::*;

use crate::middleware::{routes_wf, RateLimitMiddleware};
use crate::types::{RateLimit, Route, ThrottleBehavior};

verus! {

/// A pair of route indices: a catch-all route and a more specific route that
/// follows it in configuration order.
pub type RoutePair = (usize, usize);

/// Builder for configuring a single route (without host scope).
///
/// Created by the closure of `RateLimitBuilder::route`; the closure
/// configures the route, and the builder adds it to the middleware.
#[derive(Debug, Clone)]
pub struct RouteBuilder {
    host: Option<String>,
    method: Option<String>,
    path_prefix: String,
    limits: Vec<RateLimit>,
    on_limit: ThrottleBehavior,
}

impl RouteBuilder {
    /// The route this builder would produce.
    pub closed spec fn spec_route(&self) -> Route {
        Route {
            host: self.host,
            method: self.method,
            path_prefix: self.path_prefix,
            limits: self.limits,
            on_limit: self.on_limit,
        }
    }

    /// A freshly created route builder: no filters, no limits, delaying.
    pub open spec fn spec_is_fresh(&self) -> bool {
        &&& self.spec_route().host is None
        &&& self.spec_route().method is None
        &&& self.spec_route().path_prefix@.len() == 0
        &&& self.spec_route().limits@.len() == 0
        &&& self.spec_route().on_limit == ThrottleBehavior::Delay
    }

    fn new() -> (b: Self)
        ensures
            b.spec_is_fresh(),
    {
        RouteBuilder {
            host: None,
            method: None,
            path_prefix: String::new(),
            limits: Vec::new(),
            on_limit: ThrottleBehavior::Delay,
        }
    }

    fn into_route(self) -> (r: Route)
        ensures
            r == self.spec_route(),
    {
        Route {
            host: self.host,
            method: self.method,
            path_prefix: self.path_prefix,
            limits: self.limits,
            on_limit: self.on_limit,
        }
    }

    /// Set the host to match (e.g., "api.example.com").
    #[must_use]
    pub fn host(self, host: &str) -> (b: Self)
        ensures
            (match b.spec_route().host {
                Some(h) => h@ == host@,
                None => false,
            }),
            b.spec_route().method == self.spec_route().method,
            b.spec_route().path_prefix == self.spec_route().path_prefix,
            b.spec_route().limits == self.spec_route().limits,
            b.spec_route().on_limit == self.spec_route().on_limit,
    {
        RouteBuilder { host: Some(host.to_owned()), ..self }
    }

    /// Set the HTTP method to match (e.g., "POST").
    #[must_use]
    pub fn method(self, method: &str) -> (b: Self)
        ensures
            (match b.spec_route().method {
                Some(m) => m@ == method@,
                None => false,
            }),
            b.spec_route().host == self.spec_route().host,
            b.spec_route().path_prefix == self.spec_route().path_prefix,
            b.spec_route().limits == self.spec_route().limits,
            b.spec_route().on_limit == self.spec_route().on_limit,
    {
        RouteBuilder { method: Some(method.to_owned()), ..self }
    }

    /// Set the path prefix to match (e.g., "/order").
    #[must_use]
    pub fn path(self, path_prefix: &str) -> (b: Self)
        ensures
            b.spec_route().path_prefix@ == path_prefix@,
            b.spec_route().host == self.spec_route().host,
            b.spec_route().method == self.spec_route().method,
            b.spec_route().limits == self.spec_route().limits,
            b.spec_route().on_limit == self.spec_route().on_limit,
    {
        RouteBuilder { path_prefix: path_prefix.to_owned(), ..self }
    }

    /// Add a rate limit: at most `requests` per `window_nanos` nanoseconds.
    /// Both must be positive.
    #[must_use]
    pub fn limit(self, requests: u32, window_nanos: u64) -> (b: Self)
        requires
            requests >= 1,
            window_nanos >= 1,
        ensures
            b.spec_route().limits@ == self.spec_route().limits@.push(
                (RateLimit { requests, window_nanos }),
            ),
            b.spec_route().host == self.spec_route().host,
            b.spec_route().method == self.spec_route().method,
            b.spec_route().path_prefix == self.spec_route().path_prefix,
            b.spec_route().on_limit == self.spec_route().on_limit,
    {
        let mut limits = self.limits;
        limits.push(RateLimit::new(requests, window_nanos));
        RouteBuilder { limits, ..self }
    }

    /// Set the behavior when a rate limit is exceeded.
    #[must_use]
    pub fn on_limit(self, behavior: ThrottleBehavior) -> (b: Self)
        ensures
            b.spec_route().on_limit == behavior,
            b.spec_route().host == self.spec_route().host,
            b.spec_route().method == self.spec_route().method,
            b.spec_route().path_prefix == self.spec_route().path_prefix,
            b.spec_route().limits == self.spec_route().limits,
    {
        RouteBuilder { on_limit: behavior, ..self }
    }
}

impl Default for RouteBuilder {
    /// A fresh route builder.
    fn default() -> (b: Self)
        ensures
            b.spec_is_fresh(),
    {
        RouteBuilder::new()
    }
}

/// Builder for configuring a single route within a host scope.
///
/// Created by the closure of `HostBuilder::route`; the host is set by the
/// surrounding scope.
#[derive(Debug, Clone)]
pub struct HostRouteBuilder {
    method: Option<String>,
    path_prefix: String,
    limits: Vec<RateLimit>,
    on_limit: ThrottleBehavior,
}

impl HostRouteBuilder {
    /// The route this builder produces under the given host.
    pub closed spec fn spec_route_with(&self, host: String) -> Route {
        Route {
            host: Some(host),
            method: self.method,
            path_prefix: self.path_prefix,
            limits: self.limits,
            on_limit: self.on_limit,
        }
    }

    /// The limits accumulated so far.
    pub closed spec fn spec_limits(&self) -> Seq<RateLimit> {
        self.limits@
    }

    /// A freshly created builder: no filters, no limits, delaying.
    pub closed spec fn spec_is_fresh(&self) -> bool {
        &&& self.method is None
        &&& self.path_prefix@.len() == 0
        &&& self.limits@.len() == 0
        &&& self.on_limit == ThrottleBehavior::Delay
    }

    /// The produced route is well-formed: at least one limit was added.
    pub open spec fn spec_wf(&self) -> bool {
        &&& self.spec_limits().len() >= 1
        &&& forall|i: int| 0 <= i < self.spec_limits().len() ==> (#[trigger] self.spec_limits()[i]).wf()
    }

    fn new() -> (b: Self)
        ensures
            b.spec_is_fresh(),
    {
        HostRouteBuilder {
            method: None,
            path_prefix: String::new(),
            limits: Vec::new(),
            on_limit: ThrottleBehavior::Delay,
        }
    }

    /// Set the HTTP method to match (e.g., "POST").
    #[must_use]
    pub fn method(self, method: &str) -> (b: Self)
        ensures
            forall|host: String|
                (match (#[trigger] b.spec_route_with(host)).method {
                    Some(m) => m@ == method@,
                    None => false,
                }) && b.spec_route_with(host).path_prefix == self.spec_route_with(
                    host,
                ).path_prefix && b.spec_route_with(host).limits == self.spec_route_with(host).limits
                    && b.spec_route_with(host).on_limit == self.spec_route_with(host).on_limit,
            b.spec_limits() == self.spec_limits(),
    {
        HostRouteBuilder { method: Some(method.to_owned()), ..self }
    }

    /// Set the path prefix to match (e.g., "/order").
    #[must_use]
    pub fn path(self, path_prefix: &str) -> (b: Self)
        ensures
            forall|host: String|
                (#[trigger] b.spec_route_with(host)).path_prefix@ == path_prefix@
                    && b.spec_route_with(host).method == self.spec_route_with(host).method
                    && b.spec_route_with(host).limits == self.spec_route_with(host).limits
                    && b.spec_route_with(host).on_limit == self.spec_route_with(host).on_limit,
            b.spec_limits() == self.spec_limits(),
    {
        HostRouteBuilder { path_prefix: path_prefix.to_owned(), ..self }
    }

    /// Add a rate limit: at most `requests` per `window_nanos` nanoseconds.
    /// Both must be positive.
    #[must_use]
    pub fn limit(self, requests: u32, window_nanos: u64) -> (b: Self)
        requires
            requests >= 1,
            window_nanos >= 1,
        ensures
            b.spec_limits() == self.spec_limits().push((RateLimit { requests, window_nanos })),
            forall|host: String|
                (#[trigger] b.spec_route_with(host)).method == self.spec_route_with(host).method
                    && b.spec_route_with(host).path_prefix == self.spec_route_with(
                    host,
                ).path_prefix && b.spec_route_with(host).limits@ == self.spec_route_with(
                    host,
                ).limits@.push((RateLimit { requests, window_nanos })) && b.spec_route_with(
                    host,
                ).on_limit == self.spec_route_with(host).on_limit,
    {
        let mut limits = self.limits;
        limits.push(RateLimit::new(requests, window_nanos));
        HostRouteBuilder { limits, ..self }
    }

    /// Set the behavior when a rate limit is exceeded.
    #[must_use]
    pub fn on_limit(self, behavior: ThrottleBehavior) -> (b: Self)
        ensures
            forall|host: String|
                (#[trigger] b.spec_route_with(host)).on_limit == behavior && b.spec_route_with(
                    host,
                ).method == self.spec_route_with(host).method && b.spec_route_with(
                    host,
                ).path_prefix == self.spec_route_with(host).path_prefix && b.spec_route_with(
                    host,
                ).limits == self.spec_route_with(host).limits,
            b.spec_limits() == self.spec_limits(),
    {
        HostRouteBuilder { on_limit: behavior, ..self }
    }
}

impl Default for HostRouteBuilder {
    /// A fresh host-scoped route builder.
    fn default() -> (b: Self)
        ensures
            b.spec_is_fresh(),
    {
        HostRouteBuilder::new()
    }
}

/// Builder for configuring routes within a specific host scope.
///
/// Created by `RateLimitBuilder::host`. All routes created within this
/// builder automatically carry that host.
#[derive(Debug, Clone)]
pub struct HostBuilder {
    host: String,
    routes: Vec<Route>,
}

impl HostBuilder {
    /// The host every route of this scope carries.
    pub closed spec fn spec_host(&self) -> Seq<char> {
        self.host@
    }

    /// The host as a string value.
    pub closed spec fn spec_host_value(&self) -> String {
        self.host
    }

    /// The routes accumulated in this scope, in order.
    pub closed spec fn spec_routes(&self) -> Seq<Route> {
        self.routes@
    }

    fn new(host: String) -> (b: Self)
        ensures
            b.spec_host_value() == host,
            b.spec_host() == host@,
            b.spec_routes().len() == 0,
    {
        HostBuilder { host, routes: Vec::new() }
    }

    /// Add a route within this host using a closure-based configuration. The
    /// host is set on the route automatically. The closure must leave at
    /// least one limit on the route — a route without a limit is a
    /// configuration bug.
    #[must_use]
    pub fn route<F: FnOnce(HostRouteBuilder) -> HostRouteBuilder>(self, configure: F) -> (b: Self)
        requires
            forall|hb: HostRouteBuilder| hb.spec_is_fresh() ==> #[trigger] call_requires(
                configure,
                (hb,),
            ),
            forall|hb: HostRouteBuilder, out: HostRouteBuilder|
                hb.spec_is_fresh() && #[trigger] call_ensures(configure, (hb,), out)
                    ==> out.spec_wf(),
        ensures
            b.spec_host_value() == self.spec_host_value(),
            b.spec_host() == self.spec_host(),
            b.spec_routes().len() == self.spec_routes().len() + 1,
            b.spec_routes().last().wf(),
            (match b.spec_routes().last().host {
                Some(h) => h@ == self.spec_host(),
                None => false,
            }),
            exists|hb: HostRouteBuilder, out: HostRouteBuilder|
                hb.spec_is_fresh() && #[trigger] call_ensures(configure, (hb,), out)
                    && b.spec_routes() == self.spec_routes().push(
                    out.spec_route_with(self.spec_host_value()),
                ),
    {
        let builder = HostRouteBuilder::new();
        let configured = configure(builder);
        let route = Route {
            host: Some(self.host.clone()),
            method: configured.method,
            path_prefix: configured.path_prefix,
            limits: configured.limits,
            on_limit: configured.on_limit,
        };
        let mut routes = self.routes;
        routes.push(route);
        HostBuilder { host: self.host, routes }
    }
}

/// Whether some route at or after index `j` is not a catch-all; if so, the
/// first such index.
pub open spec fn spec_first_specific_after(routes: Seq<Route>, j: int) -> Option<int>
    decreases routes.len() - j,
{
    if j < 0 || j >= routes.len() {
        None
    } else if !routes[j].spec_is_catch_all() {
        Some(j)
    } else {
        spec_first_specific_after(routes, j + 1)
    }
}

/// The catch-all ordering diagnostics for the table, from index `i` on: one
/// pair per catch-all route that precedes some more specific route, carrying
/// the catch-all's index and the first specific index after it.
pub open spec fn spec_catch_all_warnings(routes: Seq<Route>, i: int) -> Seq<RoutePair>
    decreases routes.len() - i,
{
    if i < 0 || i >= routes.len() {
        Seq::empty()
    } else {
        let rest = spec_catch_all_warnings(routes, i + 1);
        if routes[i].spec_is_catch_all() {
            match spec_first_specific_after(routes, i + 1) {
                Some(j) => seq![((i as usize, j as usize))] + rest,
                None => rest,
            }
        } else {
            rest
        }
    }
}

/// Builder for configuring a `RateLimitMiddleware`: accumulates routes in
/// configuration order.
#[derive(Debug, Clone)]
pub struct RateLimitBuilder {
    pub(crate) routes: Vec<Route>,
}

impl RateLimitBuilder {
    /// The routes accumulated so far, in order.
    pub closed spec fn spec_routes(&self) -> Seq<Route> {
        self.routes@
    }

    /// Create a new builder with no routes.
    #[must_use]
    pub fn new() -> (b: Self)
        ensures
            b.spec_routes().len() == 0,
    {
        RateLimitBuilder { routes: Vec::new() }
    }

    /// Add a route using a closure-based configuration. The closure must
    /// leave at least one well-formed limit on the route — a route without a
    /// limit is a configuration bug.
    #[must_use]
    pub fn route<F: FnOnce(RouteBuilder) -> RouteBuilder>(self, configure: F) -> (b: Self)
        requires
            forall|rb: RouteBuilder| rb.spec_is_fresh() ==> #[trigger] call_requires(
                configure,
                (rb,),
            ),
            forall|rb: RouteBuilder, out: RouteBuilder|
                rb.spec_is_fresh() && #[trigger] call_ensures(configure, (rb,), out)
                    ==> out.spec_route().wf(),
        ensures
            b.spec_routes().len() == self.spec_routes().len() + 1,
            b.spec_routes().last().wf(),
            exists|rb: RouteBuilder, out: RouteBuilder|
                rb.spec_is_fresh() && #[trigger] call_ensures(configure, (rb,), out)
                    && b.spec_routes() == self.spec_routes().push(out.spec_route()),
    {
        let builder = RouteBuilder::new();
        let configured = configure(builder);
        let route = configured.into_route();
        self.add_route(route)
    }

    /// Configure routes for a specific host using a scoped builder: every
    /// route added in the scope carries that host. Each such route must be
    /// given at least one limit.
    #[must_use]
    pub fn host<F: FnOnce(HostBuilder) -> HostBuilder>(self, host: &str, configure: F) -> (b: Self)
        requires
            forall|hb: HostBuilder|
                hb.spec_routes().len() == 0 && hb.spec_host() == host@
                    ==> #[trigger] call_requires(configure, (hb,)),
            forall|hb: HostBuilder, out: HostBuilder|
                hb.spec_routes().len() == 0 && hb.spec_host() == host@ && #[trigger] call_ensures(
                    configure,
                    (hb,),
                    out,
                ) ==> routes_wf(out.spec_routes()),
        ensures
            b.spec_routes().len() >= self.spec_routes().len(),
            b.spec_routes().subrange(0, self.spec_routes().len() as int) == self.spec_routes(),
            forall|i: int|
                self.spec_routes().len() <= i < b.spec_routes().len()
                    ==> (#[trigger] b.spec_routes()[i]).wf(),
            exists|hb: HostBuilder, out: HostBuilder|
                hb.spec_routes().len() == 0 && hb.spec_host() == host@ && #[trigger] call_ensures(
                    configure,
                    (hb,),
                    out,
                ) && b.spec_routes() == self.spec_routes() + out.spec_routes(),
    {
        let host_builder = HostBuilder::new(host.to_owned());
        let configured = configure(host_builder);
        let mut routes = self.routes;
        let mut more = configured.routes;
        let ghost more0 = more@;
        proof {
            assert(routes_wf(more0));
        }
        routes.append(&mut more);
        let b = RateLimitBuilder { routes };
        proof {
            assert(b.spec_routes().subrange(0, self.spec_routes().len() as int)
                =~= self.spec_routes());
            assert forall|i: int|
                self.spec_routes().len() <= i < b.spec_routes().len() implies (
            #[trigger] b.spec_routes()[i]).wf() by {
                assert(b.spec_routes()[i] == more0[i - self.spec_routes().len()]);
            }
        }
        b
    }

    /// Add a pre-configured route.
    #[must_use]
    pub fn add_route(self, route: Route) -> (b: Self)
        ensures
            b.spec_routes() == self.spec_routes().push(route),
    {
        let mut routes = self.routes;
        routes.push(route);
        RateLimitBuilder { routes }
    }

    /// The catch-all ordering diagnostics for the accumulated routes: one
    /// pair `(catch_all_index, specific_index)` for each catch-all route that
    /// is followed by a more specific route. All matching routes' limits are
    /// applied, so such a catch-all also limits requests aimed at the
    /// specific route; the caller may surface each pair as a warning.
    pub fn catch_all_order_pairs(&self) -> (r: Vec<RoutePair>)
        ensures
            r@ == spec_catch_all_warnings(self.spec_routes(), 0),
    {
        let n: usize = self.routes.len();
        let mut result: Vec<RoutePair> = Vec::new();
        let mut i: usize = 0;
        while i < n
            invariant
                n == self.routes@.len(),
                0 <= i <= n,
                spec_catch_all_warnings(self.routes@, 0) == result@ + spec_catch_all_warnings(
                    self.routes@,
                    i as int,
                ),
            decreases n - i,
        {
            let ghost result0 = result@;
            if self.routes[i].is_catch_all() {
                let mut j: usize = i + 1;
                let mut found: Option<usize> = None;
                while j < n && found.is_none()
                    invariant
                        n == self.routes@.len(),
                        i < j <= n,
                        (match found {
                            Some(k) => i < k < n && spec_first_specific_after(
                                self.routes@,
                                i as int + 1,
                            ) == Some(k as int),
                            None => spec_first_specific_after(self.routes@, i as int + 1)
                                == spec_first_specific_after(self.routes@, j as int),
                        }),
                    decreases n - j, (if found is None { 1int } else { 0int }),
                {
                    if self.routes[j].is_catch_all() {
                        j += 1;
                    } else {
                        found = Some(j);
                    }
                }
                match found {
                    Some(k) => {
                        result.push((i, k));
                        proof {
                            assert(spec_catch_all_warnings(self.routes@, i as int) == seq![
                                ((i, k)),
                            ] + spec_catch_all_warnings(self.routes@, i as int + 1));
                            assert(result@ =~= result0 + seq![((i, k))]);
                            assert(result0 + (seq![((i, k))] + spec_catch_all_warnings(
                                self.routes@,
                                i as int + 1,
                            )) =~= result@ + spec_catch_all_warnings(self.routes@, i as int + 1));
                        }
                    },
                    None => {
                        proof {
                            assert(spec_first_specific_after(self.routes@, i as int + 1) is None);
                            assert(spec_catch_all_warnings(self.routes@, i as int)
                                == spec_catch_all_warnings(self.routes@, i as int + 1));
                        }
                    },
                }
            } else {
                proof {
                    assert(spec_catch_all_warnings(self.routes@, i as int)
                        == spec_catch_all_warnings(self.routes@, i as int + 1));
                }
            }
            i += 1;
        }
        result
    }

    /// Whether every accumulated route is well-formed, as `build` demands:
    /// each route carries at least one limit, and every limit is positive.
    pub fn all_routes_wf(&self) -> (r: bool)
        ensures
            r == routes_wf(self.spec_routes()),
    {
        let n: usize = self.routes.len();
        let mut i: usize = 0;
        while i < n
            invariant
                n == self.routes@.len(),
                0 <= i <= n,
                forall|k: int| 0 <= k < i ==> (#[trigger] self.routes@[k]).wf(),
            decreases n - i,
        {
            if !self.routes[i].is_wf() {
                return false;
            }
            i += 1;
        }
        true
    }

    /// Build the middleware: the accumulated routes become its immutable
    /// route table, its state table starts empty, and its reference instant
    /// is taken now. Every route must be well-formed — a route without a
    /// limit is a configuration bug.
    #[must_use]
    pub fn build(self) -> (m: RateLimitMiddleware)
        requires
            routes_wf(self.spec_routes()),
        ensures
            m.wf(),
            m.spec_routes() == self.spec_routes(),
            m.cells() == crate::table::empty_cells(),
    {
        RateLimitMiddleware::from_routes(self.routes)
    }
}

impl Default for RateLimitBuilder {
    /// A builder with no routes.
    fn default() -> (b: Self)
        ensures
            b.spec_routes().len() == 0,
    {
        RateLimitBuilder::new()
    }
}

} // verus!
