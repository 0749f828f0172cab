//! End-to-end admission scenarios against the engine, with an explicit
//! simulated clock.

use route_ratelimit::{AdmitOutcome, RateLimitError, RateLimitMiddleware, RequestParts};
use route_ratelimit::ThrottleBehavior;
use std::sync::{Arc, Mutex};

const MILLI: u64 = 1_000_000;
const SECOND: u64 = 1_000_000_000;

fn get(path: &str) -> RequestParts {
    RequestParts::new(Some("example.com"), "GET", path)
}

#[test]
fn scenario_burst_then_reject() {
    // One route, one limit (2 requests, 10 s), policy ERROR: two requests
    // pass, the third is rejected with half the window remaining.
    let mut m = RateLimitMiddleware::builder()
        .route(|r| {
            r.limit(2, 10 * SECOND)
                .on_limit(ThrottleBehavior::Error)
        })
        .build();

    let req = get("/test");
    assert_eq!(m.check_and_apply_limits(&req, 0), AdmitOutcome::Admitted);
    assert_eq!(m.check_and_apply_limits(&req, 0), AdmitOutcome::Admitted);
    let third = m.check_and_apply_limits(&req, 0);
    assert_eq!(
        third,
        AdmitOutcome::Limited(RateLimitError::RateLimited(5 * SECOND))
    );
    match third {
        AdmitOutcome::Limited(err) => assert_eq!(err.retry_after_nanos(), 5 * SECOND),
        _ => unreachable!(),
    }
}

#[test]
fn scenario_burst_then_delay() {
    // Policy DELAY, limit (2 requests, 200 ms): four requests all succeed
    // eventually; at least 150 ms of simulated waiting elapse, and every
    // reported sleep is the exact wait plus at most half again as jitter.
    let mut m = RateLimitMiddleware::builder()
        .route(|r| {
            r.limit(2, 200 * MILLI)
                .on_limit(ThrottleBehavior::Delay)
        })
        .build();

    let req = get("/test");
    let mut now: u64 = 0;
    let mut first_sleep: Option<u64> = None;
    for _ in 0..4 {
        loop {
            match m.check_and_apply_limits(&req, now) {
                AdmitOutcome::Admitted => break,
                AdmitOutcome::Delayed(sleep) => {
                    if first_sleep.is_none() {
                        first_sleep = Some(sleep);
                    }
                    now += sleep;
                }
                AdmitOutcome::Limited(_) => panic!("DELAY policy must not reject"),
            }
        }
    }
    // The first refusal's exact wait is one emission interval (100 ms);
    // jitter adds at most half of that.
    let first_sleep = first_sleep.expect("third request must be delayed");
    assert!(first_sleep >= 100 * MILLI);
    assert!(first_sleep <= 150 * MILLI);
    assert!(now >= 150 * MILLI, "four requests take at least 150 ms: {now}");
}

#[test]
fn scenario_separate_routes_separate_limits() {
    // Two routes for paths /a and /b, each (2, 10 s), ERROR. Exhausting /a
    // does not touch /b.
    let mut m = RateLimitMiddleware::builder()
        .route(|r| {
            r.path("/a")
                .limit(2, 10 * SECOND)
                .on_limit(ThrottleBehavior::Error)
        })
        .route(|r| {
            r.path("/b")
                .limit(2, 10 * SECOND)
                .on_limit(ThrottleBehavior::Error)
        })
        .build();

    let a = get("/a");
    let b = get("/b");
    assert_eq!(m.check_and_apply_limits(&a, 0), AdmitOutcome::Admitted);
    assert_eq!(m.check_and_apply_limits(&a, 0), AdmitOutcome::Admitted);
    assert!(matches!(
        m.check_and_apply_limits(&a, 0),
        AdmitOutcome::Limited(_)
    ));
    assert_eq!(m.check_and_apply_limits(&b, 0), AdmitOutcome::Admitted);
    assert_eq!(m.check_and_apply_limits(&b, 0), AdmitOutcome::Admitted);
    assert!(matches!(
        m.check_and_apply_limits(&a, 0),
        AdmitOutcome::Limited(_)
    ));
}

#[test]
fn scenario_method_specific_limits() {
    // POST /order and DELETE /order each (1, 10 s): the two methods have
    // independent cells.
    let mut m = RateLimitMiddleware::builder()
        .route(|r| {
            r.method("POST")
                .path("/order")
                .limit(1, 10 * SECOND)
                .on_limit(ThrottleBehavior::Error)
        })
        .route(|r| {
            r.method("DELETE")
                .path("/order")
                .limit(1, 10 * SECOND)
                .on_limit(ThrottleBehavior::Error)
        })
        .build();

    let post = RequestParts::new(Some("example.com"), "POST", "/order");
    let delete = RequestParts::new(Some("example.com"), "DELETE", "/order");
    assert_eq!(m.check_and_apply_limits(&post, 0), AdmitOutcome::Admitted);
    assert_eq!(m.check_and_apply_limits(&delete, 0), AdmitOutcome::Admitted);
    assert!(matches!(
        m.check_and_apply_limits(&post, 0),
        AdmitOutcome::Limited(_)
    ));
    assert!(matches!(
        m.check_and_apply_limits(&delete, 0),
        AdmitOutcome::Limited(_)
    ));
}

#[test]
fn scenario_burst_and_sustained_on_one_route() {
    // One route with limits (3, 100 ms) and (5, 1 s). The burst limit stops
    // the 4th request; after the burst recovers, the sustained limit stops
    // the 6th within the second.
    let mut m = RateLimitMiddleware::builder()
        .route(|r| {
            r.limit(3, 100 * MILLI)
                .limit(5, SECOND)
                .on_limit(ThrottleBehavior::Error)
        })
        .build();

    let req = get("/test");
    for _ in 0..3 {
        assert_eq!(m.check_and_apply_limits(&req, 0), AdmitOutcome::Admitted);
    }
    // 4th at t=0: the burst cell refuses (its wait is under one burst
    // emission interval of ~33 ms); the sustained cell was not reached.
    assert_eq!(
        m.check_and_apply_limits(&req, 0),
        AdmitOutcome::Limited(RateLimitError::RateLimited(33_333_332))
    );
    // At t=100ms the burst recovers: two more are admitted.
    assert_eq!(
        m.check_and_apply_limits(&req, 100 * MILLI),
        AdmitOutcome::Admitted
    );
    assert_eq!(
        m.check_and_apply_limits(&req, 100 * MILLI),
        AdmitOutcome::Admitted
    );
    // 6th within the second: the burst cell still admits, but the sustained
    // cell refuses with a full sustained emission interval to wait.
    assert_eq!(
        m.check_and_apply_limits(&req, 100 * MILLI),
        AdmitOutcome::Limited(RateLimitError::RateLimited(100 * MILLI))
    );
}

#[test]
fn scenario_shared_state_across_clones() {
    // One middleware behind a shared handle, used by two "clients": a
    // 3-request limit is exhausted by any mix of calls across the two
    // handles, and then both are rejected.
    let m = RateLimitMiddleware::builder()
        .route(|r| {
            r.limit(3, 10 * SECOND)
                .on_limit(ThrottleBehavior::Error)
        })
        .build();
    let shared = Arc::new(Mutex::new(m));
    let client1 = Arc::clone(&shared);
    let client2 = Arc::clone(&shared);

    let req = get("/test");
    assert_eq!(
        client1.lock().unwrap().check_and_apply_limits(&req, 0),
        AdmitOutcome::Admitted
    );
    assert_eq!(
        client1.lock().unwrap().check_and_apply_limits(&req, 0),
        AdmitOutcome::Admitted
    );
    assert_eq!(
        client2.lock().unwrap().check_and_apply_limits(&req, 0),
        AdmitOutcome::Admitted
    );
    assert!(matches!(
        client1.lock().unwrap().check_and_apply_limits(&req, 0),
        AdmitOutcome::Limited(_)
    ));
    assert!(matches!(
        client2.lock().unwrap().check_and_apply_limits(&req, 0),
        AdmitOutcome::Limited(_)
    ));
}

#[test]
fn scenario_recovery() {
    // Limit (2, 100 ms). Exhaust, then wait 60 ms: exactly one further
    // request is admitted; the next one must wait again.
    let mut m = RateLimitMiddleware::builder()
        .route(|r| {
            r.limit(2, 100 * MILLI)
                .on_limit(ThrottleBehavior::Error)
        })
        .build();

    let req = get("/test");
    assert_eq!(m.check_and_apply_limits(&req, 0), AdmitOutcome::Admitted);
    assert_eq!(m.check_and_apply_limits(&req, 0), AdmitOutcome::Admitted);
    assert!(matches!(
        m.check_and_apply_limits(&req, 0),
        AdmitOutcome::Limited(_)
    ));

    let later = 60 * MILLI;
    assert_eq!(m.check_and_apply_limits(&req, later), AdmitOutcome::Admitted);
    assert_eq!(
        m.check_and_apply_limits(&req, later),
        AdmitOutcome::Limited(RateLimitError::RateLimited(40 * MILLI))
    );
}

#[test]
fn scenario_segment_boundary() {
    // Route path_prefix /order, limit (1, 10 s), ERROR: /order, /order/ and
    // /order/123 share the one cell; /orders and /order-test are never
    // limited and never create state.
    let mut m = RateLimitMiddleware::builder()
        .route(|r| {
            r.path("/order")
                .limit(1, 10 * SECOND)
                .on_limit(ThrottleBehavior::Error)
        })
        .build();

    assert_eq!(
        m.check_and_apply_limits(&get("/order"), 0),
        AdmitOutcome::Admitted
    );
    assert!(matches!(
        m.check_and_apply_limits(&get("/order/"), 0),
        AdmitOutcome::Limited(_)
    ));
    assert!(matches!(
        m.check_and_apply_limits(&get("/order/123"), 0),
        AdmitOutcome::Limited(_)
    ));
    for _ in 0..5 {
        assert_eq!(
            m.check_and_apply_limits(&get("/orders"), 0),
            AdmitOutcome::Admitted
        );
        assert_eq!(
            m.check_and_apply_limits(&get("/order-test"), 0),
            AdmitOutcome::Admitted
        );
    }
    // Only the matched route's single cell was ever created.
    assert_eq!(m.state_count(), 1);
}

#[test]
fn scenario_catch_all() {
    // Route with empty path, limit (2, 10 s), ERROR: requests to distinct
    // paths share the limit.
    let mut m = RateLimitMiddleware::builder()
        .route(|r| {
            r.limit(2, 10 * SECOND)
                .on_limit(ThrottleBehavior::Error)
        })
        .build();

    assert_eq!(
        m.check_and_apply_limits(&get("/test"), 0),
        AdmitOutcome::Admitted
    );
    assert_eq!(
        m.check_and_apply_limits(&get("/data"), 0),
        AdmitOutcome::Admitted
    );
    assert!(matches!(
        m.check_and_apply_limits(&get("/"), 0),
        AdmitOutcome::Limited(_)
    ));
}

#[test]
fn unmatched_request_creates_no_state() {
    // A request that matches no route is admitted without touching the state
    // table.
    let mut m = RateLimitMiddleware::builder()
        .route(|r| {
            r.path("/test")
                .limit(1, 10 * SECOND)
                .on_limit(ThrottleBehavior::Error)
        })
        .build();

    assert_eq!(m.state_count(), 0);
    for _ in 0..10 {
        assert_eq!(
            m.check_and_apply_limits(&get("/"), 0),
            AdmitOutcome::Admitted
        );
    }
    assert_eq!(m.state_count(), 0);
}

#[test]
fn cleanup_removes_only_stale_cells() {
    // An entry is removed once its TAT has receded two windows into the
    // past; a recently active entry stays.
    let mut m = RateLimitMiddleware::builder()
        .route(|r| {
            r.limit(2, 100 * MILLI)
                .on_limit(ThrottleBehavior::Error)
        })
        .build();

    let req = get("/x");
    assert_eq!(m.check_and_apply_limits(&req, 0), AdmitOutcome::Admitted);
    assert_eq!(m.check_and_apply_limits(&req, 0), AdmitOutcome::Admitted);
    // The cell's TAT now sits at 100 ms.
    assert_eq!(m.state_count(), 1);

    // At 250 ms the TAT is 150 ms in the past, within two windows: kept.
    m.cleanup_at(250 * MILLI);
    assert_eq!(m.state_count(), 1);

    // At 300 ms the TAT is exactly two windows in the past: removed.
    m.cleanup_at(300 * MILLI);
    assert_eq!(m.state_count(), 0);

    // Removing the cell is the same as leaving a fresh one: the request is
    // admitted again as a fresh burst.
    assert_eq!(
        m.check_and_apply_limits(&req, 300 * MILLI),
        AdmitOutcome::Admitted
    );
}

#[test]
fn clock_reads_and_cleanup_keep_fresh_state() {
    // Against the real monotonic clock: readings never go backwards, start
    // near zero, and a cleanup right after an admission keeps the fresh cell.
    let mut m = RateLimitMiddleware::builder()
        .route(|r| {
            r.limit(1, 10 * SECOND)
                .on_limit(ThrottleBehavior::Error)
        })
        .build();

    let t1 = m.now_nanos();
    let t2 = m.now_nanos();
    assert!(t2 >= t1);
    assert!(t1 < 3600 * SECOND);

    let req = get("/x");
    let now = m.now_nanos();
    assert_eq!(m.check_and_apply_limits(&req, now), AdmitOutcome::Admitted);
    assert_eq!(m.state_count(), 1);
    // The cell's TAT lies ten seconds ahead: nowhere near two windows stale.
    m.cleanup();
    assert_eq!(m.state_count(), 1);
}
