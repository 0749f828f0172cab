//! Tests for route matching and the rate limit type.

use route_ratelimit::{RateLimit, RequestParts, Route, ThrottleBehavior};

const SECOND: u64 = 1_000_000_000;

fn get(url_host: &str, path: &str) -> RequestParts {
    RequestParts::new(Some(url_host), "GET", path)
}

#[test]
fn test_route_matching_all() {
    let route = Route {
        host: None,
        method: None,
        path_prefix: String::new(),
        limits: vec![],
        on_limit: ThrottleBehavior::Delay,
    };

    let req = get("example.com", "/test");

    assert!(route.matches(&req));
}

#[test]
fn test_route_matching_host() {
    let route = Route {
        host: Some("api.example.com".to_string()),
        method: None,
        path_prefix: String::new(),
        limits: vec![],
        on_limit: ThrottleBehavior::Delay,
    };

    let req_match = get("api.example.com", "/test");
    let req_no_match = get("other.example.com", "/test");

    assert!(route.matches(&req_match));
    assert!(!route.matches(&req_no_match));
}

#[test]
fn test_route_matching_method() {
    let route = Route {
        host: None,
        method: Some("POST".to_string()),
        path_prefix: String::new(),
        limits: vec![],
        on_limit: ThrottleBehavior::Delay,
    };

    let req_match = RequestParts::new(Some("example.com"), "POST", "/test");
    let req_no_match = RequestParts::new(Some("example.com"), "GET", "/test");

    assert!(route.matches(&req_match));
    assert!(!route.matches(&req_no_match));
}

#[test]
fn test_route_matching_path_prefix() {
    let route = Route {
        host: None,
        method: None,
        path_prefix: "/api/v1".to_string(),
        limits: vec![],
        on_limit: ThrottleBehavior::Delay,
    };

    let req_match = get("example.com", "/api/v1/users");
    let req_no_match = get("example.com", "/api/v2/users");

    assert!(route.matches(&req_match));
    assert!(!route.matches(&req_no_match));
}

#[test]
fn test_route_matching_path_segment_boundary() {
    let route = Route {
        host: None,
        method: None,
        path_prefix: "/order".to_string(),
        limits: vec![],
        on_limit: ThrottleBehavior::Delay,
    };

    // Should match: exact, with trailing slash, with sub-path
    let req_exact = get("example.com", "/order");
    let req_trailing = get("example.com", "/order/");
    let req_subpath = get("example.com", "/order/123");

    assert!(route.matches(&req_exact), "/order should match /order");
    assert!(route.matches(&req_trailing), "/order should match /order/");
    assert!(route.matches(&req_subpath), "/order should match /order/123");

    // Should NOT match: different path that starts with same chars
    let req_orders = get("example.com", "/orders");
    let req_order_dash = get("example.com", "/order-test");

    assert!(!route.matches(&req_orders), "/order should NOT match /orders");
    assert!(
        !route.matches(&req_order_dash),
        "/order should NOT match /order-test"
    );
}

#[test]
fn test_emission_interval() {
    let limit = RateLimit::new(100, 10 * SECOND);
    assert_eq!(limit.emission_interval(), 100_000_000);

    let limit = RateLimit::new(1000, 60 * SECOND);
    assert_eq!(limit.emission_interval(), 60_000_000);
}

#[test]
fn emission_interval_rounds_down() {
    // 10 nanoseconds split over 3 requests: the interval rounds down, and
    // interval * requests stays within one request count of the window.
    let limit = RateLimit::new(3, 10);
    assert_eq!(limit.emission_interval(), 3);
    assert!(limit.emission_interval() * 3 <= 10);
    assert!(10 < (limit.emission_interval() + 1) * 3);
}

#[test]
fn host_matching_is_case_sensitive() {
    let route = Route {
        host: Some("api.example.com".to_string()),
        method: None,
        path_prefix: String::new(),
        limits: vec![],
        on_limit: ThrottleBehavior::Delay,
    };

    assert!(route.matches(&get("api.example.com", "/")));
    assert!(!route.matches(&get("API.example.com", "/")));
    assert!(!route.matches(&get("api.Example.com", "/")));
}

#[test]
fn host_matching_is_port_insensitive() {
    // The matcher sees only the hostname portion of the URL; extracting it
    // with the url crate (as the transport adapter does) drops the port.
    let route = Route {
        host: Some("api.example.com".to_string()),
        method: None,
        path_prefix: String::new(),
        limits: vec![],
        on_limit: ThrottleBehavior::Delay,
    };

    let with_port = url::Url::parse("https://api.example.com:8443/path").unwrap();
    let without_port = url::Url::parse("https://api.example.com/path").unwrap();
    let req_with_port = RequestParts::new(with_port.host_str(), "GET", with_port.path());
    let req_without_port = RequestParts::new(without_port.host_str(), "GET", without_port.path());

    assert!(route.matches(&req_with_port));
    assert!(route.matches(&req_without_port));
}

#[test]
fn specific_host_rejects_hostless_request() {
    let route = Route {
        host: Some("api.example.com".to_string()),
        method: None,
        path_prefix: String::new(),
        limits: vec![],
        on_limit: ThrottleBehavior::Delay,
    };

    let req = RequestParts::new(None, "GET", "/test");
    assert!(!route.matches(&req));
}

#[test]
fn matching_is_pure() {
    let route = Route {
        host: Some("h.example.com".to_string()),
        method: Some("GET".to_string()),
        path_prefix: "/a".to_string(),
        limits: vec![],
        on_limit: ThrottleBehavior::Error,
    };
    let req = get("h.example.com", "/a/1");
    let first = route.matches(&req);
    for _ in 0..5 {
        assert_eq!(route.matches(&req), first);
    }
    assert!(first);
}

#[test]
fn catch_all_route_detection() {
    let catch_all = Route {
        host: None,
        method: None,
        path_prefix: String::new(),
        limits: vec![],
        on_limit: ThrottleBehavior::Delay,
    };
    assert!(catch_all.is_catch_all());

    let specific = Route {
        host: None,
        method: None,
        path_prefix: "/a".to_string(),
        limits: vec![],
        on_limit: ThrottleBehavior::Delay,
    };
    assert!(!specific.is_catch_all());
}
