//! Tests for the GCRA cell.

use route_ratelimit::GcraState;

const MILLI: u64 = 1_000_000;
const SECOND: u64 = 1_000_000_000;

#[test]
fn test_gcra_allows_burst() {
    let mut state = GcraState::new();
    let emission_nanos = 100 * MILLI; // 10 req/s
    let limit_nanos = SECOND;

    let now = 0u64;

    // Should allow up to 10 requests immediately (burst)
    for _ in 0..10 {
        assert!(state.try_acquire(now, emission_nanos, limit_nanos).is_ok());
    }

    // 11th request should be rate limited
    assert!(state.try_acquire(now, emission_nanos, limit_nanos).is_err());
}

#[test]
fn test_gcra_recovers_after_time() {
    let mut state = GcraState::new();
    let emission_nanos = 100 * MILLI;
    let limit_nanos = SECOND;

    // Exhaust the burst at t=0
    let now = 0u64;
    for _ in 0..10 {
        let _ = state.try_acquire(now, emission_nanos, limit_nanos);
    }

    // After 100ms, one more request should be allowed
    let now = 100 * MILLI;
    assert!(state.try_acquire(now, emission_nanos, limit_nanos).is_ok());
}

#[test]
fn gcra_reported_wait_is_exact() {
    // A refused acquire reports a wait; retrying exactly that much later,
    // with no other acquires on the cell, succeeds.
    let mut state = GcraState::new();
    let emission_nanos = 5 * SECOND;
    let limit_nanos = 10 * SECOND;

    assert!(state.try_acquire(0, emission_nanos, limit_nanos).is_ok());
    assert!(state.try_acquire(0, emission_nanos, limit_nanos).is_ok());
    let wait = state
        .try_acquire(0, emission_nanos, limit_nanos)
        .unwrap_err();
    assert_eq!(wait, 5 * SECOND);
    // One nanosecond too early still fails.
    assert!(state.try_acquire(wait - 1, emission_nanos, limit_nanos).is_err());
    // Exactly the reported wait succeeds.
    assert!(state.try_acquire(wait, emission_nanos, limit_nanos).is_ok());
}

#[test]
fn gcra_tat_advances_by_emission_interval() {
    let mut state = GcraState::new();
    assert_eq!(state.tat(), 0);
    assert!(state.try_acquire(7, 3, 10).is_ok());
    // Fully recovered cell: TAT becomes now + emission interval.
    assert_eq!(state.tat(), 10);
    assert!(state.try_acquire(7, 3, 10).is_ok());
    // Burst in progress: TAT advances from its old value.
    assert_eq!(state.tat(), 13);
    assert!(state.try_acquire(7, 3, 10).is_ok());
    assert_eq!(state.tat(), 16);
    // The next candidate (19) overshoots the ceiling (17): refused, and the
    // TAT is left unchanged.
    assert!(state.try_acquire(7, 3, 10).is_err());
    assert_eq!(state.tat(), 16);
}
