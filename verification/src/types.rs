//! Core types for rate limit configuration and request matching.

use vstd::prelude::*;
use vstd::string::StrSliceExecFns;

verus! {

/// Behavior when a rate limit is exceeded.
#[derive(Debug, Clone, Copy, PartialEq, Eq, Structural)]
pub enum ThrottleBehavior {
    /// Delay the request until the rate limit window allows it.
    Delay,
    /// Return an error immediately.
    Error,
}

impl Default for ThrottleBehavior {
    /// Delaying is the default behavior.
    fn default() -> (r: Self)
        ensures
            r == ThrottleBehavior::Delay,
    {
        ThrottleBehavior::Delay
    }
}

/// The steady-state minimum spacing between admissions, in nanoseconds: the
/// window divided by the request count (integer division).
pub open spec fn spec_emission_interval(requests: u32, window_nanos: u64) -> u64 {
    (window_nanos as int / requests as int) as u64
}

/// A single rate limit: at most `requests` admissions per `window_nanos`
/// nanoseconds.
#[derive(Debug, Clone, Copy)]
pub struct RateLimit {
    /// Maximum number of requests allowed in the window.
    pub requests: u32,
    /// Time window for the rate limit, in nanoseconds.
    pub window_nanos: u64,
}

impl RateLimit {
    /// A well-formed limit allows at least one request over a positive window.
    pub open spec fn wf(&self) -> bool {
        &&& self.requests >= 1
        &&& self.window_nanos >= 1
    }

    /// Create a new rate limit. The request count and the window must both be
    /// positive; the window is given in nanoseconds and therefore always fits
    /// the 64-bit nanosecond range.
    pub fn new(requests: u32, window_nanos: u64) -> (r: Self)
        requires
            requests >= 1,
            window_nanos >= 1,
        ensures
            r.requests == requests,
            r.window_nanos == window_nanos,
            r.wf(),
    {
        RateLimit { requests, window_nanos }
    }

    /// Calculate the emission interval (time between requests) in nanoseconds.
    pub fn emission_interval(&self) -> (r: u64)
        requires
            self.requests >= 1,
        ensures
            r == spec_emission_interval(self.requests, self.window_nanos),
    {
        self.window_nanos / (self.requests as u64)
    }
}

/// Up to integer-division rounding, the emission interval times the request
/// count gives back the window: `emission_interval * requests` never exceeds
/// the window, and falls short of it by less than one request count.
pub proof fn lemma_emission_interval_rounding(requests: u32, window_nanos: u64)
    requires
        requests >= 1,
        window_nanos >= 1,
    ensures
        spec_emission_interval(requests, window_nanos) * requests <= window_nanos,
        window_nanos < (spec_emission_interval(requests, window_nanos) + 1) * requests,
{
    let q = window_nanos as int / requests as int;
    assert(q * requests <= window_nanos < (q + 1) * requests) by (nonlinear_arith)
        requires
            requests >= 1,
            window_nanos >= 0,
            q == window_nanos as int / requests as int,
    ;
    assert(0 <= q <= window_nanos) by (nonlinear_arith)
        requires
            requests >= 1,
            window_nanos >= 0,
            q == window_nanos as int / requests as int,
    ;
}

/// The observed shape of one outgoing request: hostname (without the port, if
/// the request has a host at all), HTTP method, and URL path.
#[derive(Debug, Clone)]
pub struct RequestParts {
    /// The hostname portion of the request URL, port excluded, if any.
    pub host: Option<String>,
    /// The HTTP method, e.g. "GET".
    pub method: String,
    /// The URL path, e.g. "/order/123".
    pub path: String,
}

impl RequestParts {
    /// Assemble the observed parts of a request.
    pub fn new(host: Option<&str>, method: &str, path: &str) -> (r: Self)
        ensures
            (match r.host {
                Some(h) => host matches Some(g) && h@ == g@,
                None => host is None,
            }),
            r.method@ == method@,
            r.path@ == path@,
    {
        RequestParts {
            host: match host {
                Some(h) => Some(h.to_owned()),
                None => None,
            },
            method: method.to_owned(),
            path: path.to_owned(),
        }
    }
}

/// Segment-boundary prefix matching: the path starts with the prefix, and the
/// character right after the prefix is absent or `'/'`.
pub open spec fn spec_path_prefix_matches(path: Seq<char>, prefix: Seq<char>) -> bool {
    &&& path.len() >= prefix.len()
    &&& path.subrange(0, prefix.len() as int) == prefix
    &&& (path.len() == prefix.len() || path[prefix.len() as int] == '/')
}

/// Whether `path` matches `prefix` at a path-segment boundary: `/order`
/// matches `/order`, `/order/` and `/order/123`, but neither `/orders` nor
/// `/order-test`.
pub fn path_prefix_matches(path: &str, prefix: &str) -> (r: bool)
    ensures
        r == spec_path_prefix_matches(path@, prefix@),
{
    let path_len = path.unicode_len();
    let prefix_len = prefix.unicode_len();
    if path_len < prefix_len {
        return false;
    }
    let mut i: usize = 0;
    while i < prefix_len
        invariant
            0 <= i <= prefix_len,
            prefix_len == prefix@.len(),
            path_len == path@.len(),
            prefix_len <= path_len,
            forall|j: int| 0 <= j < i ==> path@[j] == prefix@[j],
        decreases prefix_len - i,
    {
        if path.get_char(i) != prefix.get_char(i) {
            assert(path@.subrange(0, prefix@.len() as int)[i as int] != prefix@[i as int]);
            return false;
        }
        i += 1;
    }
    assert(path@.subrange(0, prefix@.len() as int) =~= prefix@);
    if path_len == prefix_len {
        return true;
    }
    path.get_char(prefix_len) == '/'
}

/// String equality over the character views.
pub fn string_eq(a: &String, b: &String) -> (r: bool)
    ensures
        r == (a@ == b@),
{
    *a == *b
}

/// A route definition that matches requests and applies rate limits.
#[derive(Debug, Clone)]
pub struct Route {
    /// Optional host to match (e.g., "api.example.com"); `None` matches any
    /// host.
    pub host: Option<String>,
    /// Optional HTTP method to match; `None` matches any method.
    pub method: Option<String>,
    /// Path prefix to match (e.g., "/order"). Empty matches all paths.
    pub path_prefix: String,
    /// Rate limits to apply (all must pass).
    pub limits: Vec<RateLimit>,
    /// Behavior when a rate limit is exceeded.
    pub on_limit: ThrottleBehavior,
}

impl Route {
    /// A well-formed route carries at least one limit, each well-formed.
    pub open spec fn wf(&self) -> bool {
        &&& self.limits@.len() >= 1
        &&& forall|i: int| 0 <= i < self.limits@.len() ==> (#[trigger] self.limits@[i]).wf()
    }

    /// A catch-all route has no host, no method, and no path prefix
    /// constraint: it matches every request.
    pub open spec fn spec_is_catch_all(&self) -> bool {
        &&& self.host is None
        &&& self.method is None
        &&& self.path_prefix@.len() == 0
    }

    /// Returns `true` if this route has no filters (matches all requests).
    pub fn is_catch_all(&self) -> (r: bool)
        ensures
            r == self.spec_is_catch_all(),
    {
        self.host.is_none() && self.method.is_none() && self.path_prefix.as_str().is_empty()
    }

    /// Whether this route matches a request: the host agrees (exactly,
    /// case-sensitively, unless the route accepts any host; a request without
    /// a host fails a specific host), the method agrees (unless the route
    /// accepts any), and the path matches the prefix at a segment boundary
    /// (unless the prefix is empty).
    pub open spec fn spec_matches(&self, req: &RequestParts) -> bool {
        &&& (match self.host {
            None => true,
            Some(h) => match req.host {
                Some(rh) => rh@ == h@,
                None => false,
            },
        })
        &&& (match self.method {
            None => true,
            Some(m) => req.method@ == m@,
        })
        &&& (self.path_prefix@.len() == 0 || spec_path_prefix_matches(
            req.path@,
            self.path_prefix@,
        ))
    }

    /// Whether this route is well-formed: it carries at least one limit,
    /// and every limit allows at least one request over a positive window.
    pub fn is_wf(&self) -> (r: bool)
        ensures
            r == self.wf(),
    {
        let n: usize = self.limits.len();
        if n == 0 {
            return false;
        }
        let mut i: usize = 0;
        while i < n
            invariant
                n == self.limits@.len(),
                0 <= i <= n,
                forall|k: int| 0 <= k < i ==> (#[trigger] self.limits@[k]).wf(),
            decreases n - i,
        {
            let limit = self.limits[i];
            if limit.requests < 1 || limit.window_nanos < 1 {
                assert(!self.limits@[i as int].wf());
                return false;
            }
            i += 1;
        }
        true
    }

    /// Check if this route matches a request.
    pub fn matches(&self, req: &RequestParts) -> (r: bool)
        ensures
            r == self.spec_matches(req),
    {
        // Check host
        if let Some(host) = &self.host {
            match &req.host {
                Some(req_host) => {
                    if !string_eq(req_host, host) {
                        return false;
                    }
                },
                None => {
                    return false;
                },
            }
        }

        // Check method
        if let Some(method) = &self.method {
            if !string_eq(&req.method, method) {
                return false;
            }
        }

        // Check path prefix at segment boundaries:
        // - "/order" matches "/order", "/order/", "/order/123"
        // - "/order" does NOT match "/orders" or "/order-test"
        if !self.path_prefix.as_str().is_empty() {
            if !path_prefix_matches(req.path.as_str(), self.path_prefix.as_str()) {
                return false;
            }
        }

        true
    }
}

/// Route matching is pure: it is a function of the route and the observed
/// request parts alone, so the same request against the same route always
/// yields the same answer.
pub proof fn lemma_matching_pure(r1: Route, r2: Route, q1: RequestParts, q2: RequestParts)
    requires
        r1.host == r2.host,
        r1.method == r2.method,
        r1.path_prefix == r2.path_prefix,
        q1.host == q2.host,
        q1.method == q2.method,
        q1.path == q2.path,
    ensures
        r1.spec_matches(&q1) == r2.spec_matches(&q2),
{
}

} // verus!
