//! The Generic Cell Rate Algorithm (GCRA).
//!
//! A cell keeps one number, the theoretical arrival time (TAT) in nanoseconds
//! relative to the process-start epoch: the earliest instant at which the next
//! virtual request would come due under perfect rate compliance. `tat <= now`
//! means the cell has fully recovered; `tat > now` means part of the burst
//! budget is consumed.

use vstd::prelude::*;

use crate::types::spec_emission_interval;

verus! {

/// The candidate new TAT for an acquire at `now`: one emission interval past
/// the old TAT, or past `now` when the cell has fully recovered.
pub open spec fn gcra_candidate(tat: u64, now: u64, emission_interval: u64) -> u64 {
    if tat <= now {
        now.saturating_add(emission_interval)
    } else {
        tat.saturating_add(emission_interval)
    }
}

/// The latest TAT an acquire at `now` may reach: the window acts as the burst
/// budget.
pub open spec fn gcra_ceiling(now: u64, window: u64) -> u64 {
    now.saturating_add(window)
}

/// Whether an acquire at `now` is admitted.
pub open spec fn gcra_admits(tat: u64, now: u64, emission_interval: u64, window: u64) -> bool {
    gcra_candidate(tat, now, emission_interval) <= gcra_ceiling(now, window)
}

/// The TAT after an acquire at `now`: advanced on admission, unchanged on
/// refusal.
pub open spec fn gcra_next_tat(tat: u64, now: u64, emission_interval: u64, window: u64) -> u64 {
    if gcra_admits(tat, now, emission_interval, window) {
        gcra_candidate(tat, now, emission_interval)
    } else {
        tat
    }
}

/// How long a refused acquire at `now` must wait before retrying.
pub open spec fn gcra_wait(tat: u64, now: u64, emission_interval: u64, window: u64) -> u64 {
    gcra_candidate(tat, now, emission_interval).saturating_sub(gcra_ceiling(now, window))
}

/// One GCRA cell: the metering state for one `(route, limit)` pair.
pub struct GcraState {
    tat_nanos: u64,
}

impl GcraState {
    /// The theoretical arrival time this cell holds.
    pub closed spec fn spec_tat(&self) -> u64 {
        self.tat_nanos
    }

    /// A fresh cell: fully recovered since the epoch.
    pub fn new() -> (s: Self)
        ensures
            s.spec_tat() == 0,
    {
        GcraState { tat_nanos: 0 }
    }

    /// A cell holding a given theoretical arrival time.
    pub(crate) fn from_tat(tat_nanos: u64) -> (s: Self)
        ensures
            s.spec_tat() == tat_nanos,
    {
        GcraState { tat_nanos }
    }

    /// The current theoretical arrival time in nanoseconds.
    pub fn tat(&self) -> (t: u64)
        ensures
            t == self.spec_tat(),
    {
        self.tat_nanos
    }

    /// Consume one request slot, or report how long the caller must wait.
    ///
    /// On `Ok` the TAT advances by exactly one emission interval past the old
    /// TAT or past `now`, whichever is later; on `Err` the cell is unchanged
    /// and the wait is exact. All arithmetic saturates at the 64-bit range.
    pub fn try_acquire(
        &mut self,
        now_nanos: u64,
        emission_interval_nanos: u64,
        limit_nanos: u64,
    ) -> (r: Result<(), u64>)
        ensures
            final(self).spec_tat() == gcra_next_tat(
                old(self).spec_tat(),
                now_nanos,
                emission_interval_nanos,
                limit_nanos,
            ),
            gcra_admits(old(self).spec_tat(), now_nanos, emission_interval_nanos, limit_nanos)
                ==> r == Ok::<(), u64>(()),
            !gcra_admits(old(self).spec_tat(), now_nanos, emission_interval_nanos, limit_nanos)
                ==> r == Err::<(), u64>(gcra_wait(
                    old(self).spec_tat(),
                    now_nanos,
                    emission_interval_nanos,
                    limit_nanos,
                )),
    {
        let tat = self.tat_nanos;
        let new_tat = if tat <= now_nanos {
            now_nanos.saturating_add(emission_interval_nanos)
        } else {
            tat.saturating_add(emission_interval_nanos)
        };
        let limit_at = now_nanos.saturating_add(limit_nanos);
        if new_tat > limit_at {
            Err(new_tat.saturating_sub(limit_at))
        } else {
            self.tat_nanos = new_tat;
            Ok(())
        }
    }
}

// ---------------------------------------------------------------------------
// Laws about sequences of acquires on one cell.
// ---------------------------------------------------------------------------

/// The TAT after running a whole sequence of acquires, one per entry of
/// `times`, in order.
pub open spec fn tat_after_all(tat0: u64, times: Seq<u64>, emission_interval: u64, window: u64) -> u64
    decreases times.len(),
{
    if times.len() == 0 {
        tat0
    } else {
        gcra_next_tat(
            tat_after_all(tat0, times.drop_last(), emission_interval, window),
            times.last(),
            emission_interval,
            window,
        )
    }
}

/// Whether every acquire in the sequence is admitted.
pub open spec fn all_admitted(tat0: u64, times: Seq<u64>, emission_interval: u64, window: u64) -> bool
    decreases times.len(),
{
    times.len() == 0 || {
        &&& all_admitted(tat0, times.drop_last(), emission_interval, window)
        &&& gcra_admits(
            tat_after_all(tat0, times.drop_last(), emission_interval, window),
            times.last(),
            emission_interval,
            window,
        )
    }
}

/// The times are in chronological order.
pub open spec fn nondecreasing(times: Seq<u64>) -> bool {
    forall|i: int, j: int| 0 <= i <= j < times.len() ==> times[i] <= times[j]
}

/// After a chronological run of admitted acquires, the TAT sits at least one
/// emission interval per admission past the first time, and within one window
/// of the last time.
proof fn lemma_tat_bounds(tat0: u64, times: Seq<u64>, emission_interval: u64, window: u64)
    requires
        0 < emission_interval <= window,
        times.len() >= 1,
        nondecreasing(times),
        all_admitted(tat0, times, emission_interval, window),
        times.last() + window < u64::MAX,
    ensures
        tat_after_all(tat0, times, emission_interval, window)
            >= times.first() + times.len() * emission_interval,
        tat_after_all(tat0, times, emission_interval, window) <= times.last() + window,
    decreases times.len(),
{
    let prev = tat_after_all(tat0, times.drop_last(), emission_interval, window);
    let cand = gcra_candidate(prev, times.last(), emission_interval);
    // The last acquire is admitted, and its ceiling did not saturate, so the
    // candidate arithmetic is exact.
    assert(gcra_ceiling(times.last(), window) == times.last() + window);
    assert(cand <= times.last() + window);
    if times.len() == 1 {
        assert(cand >= times.first() + emission_interval);
        assert(1 * emission_interval == emission_interval) by (nonlinear_arith);
    } else {
        let shorter = times.drop_last();
        assert(shorter.last() == times[times.len() - 2]);
        assert(shorter.last() <= times.last());
        assert(shorter.first() == times.first());
        lemma_tat_bounds(tat0, shorter, emission_interval, window);
        assert(prev >= times.first() + shorter.len() * emission_interval);
        assert(cand >= prev + emission_interval);
        assert(shorter.len() * emission_interval + emission_interval
            == times.len() * emission_interval) by (nonlinear_arith)
            requires shorter.len() + 1 == times.len();
    }
}

/// Pacing of admissions. For any cell state and any chronological sequence of
/// `try_acquire` calls that are all admitted, one emission interval per
/// admission fits between the first time and one window past the last time.
/// At a single instant this caps a burst at `window / emission_interval`
/// admissions; over a span it caps the sustained rate at one admission per
/// emission interval, plus the burst.
pub proof fn lemma_admission_rate(tat0: u64, times: Seq<u64>, emission_interval: u64, window: u64)
    requires
        0 < emission_interval <= window,
        times.len() >= 1,
        nondecreasing(times),
        all_admitted(tat0, times, emission_interval, window),
        times.last() + window < u64::MAX,
    ensures
        times.first() + times.len() * emission_interval <= times.last() + window,
{
    lemma_tat_bounds(tat0, times, emission_interval, window);
}

/// Burst bound: acquires all made at one instant are admitted at most
/// `window / emission_interval` times, whatever the cell held before.
pub proof fn lemma_burst_bound(tat0: u64, times: Seq<u64>, emission_interval: u64, window: u64)
    requires
        0 < emission_interval <= window,
        times.len() >= 1,
        forall|i: int| 0 <= i < times.len() ==> times[i] == times.first(),
        all_admitted(tat0, times, emission_interval, window),
        times.first() + window < u64::MAX,
    ensures
        times.len() <= window as int / emission_interval as int,
{
    assert(times.last() == times.first());
    lemma_admission_rate(tat0, times, emission_interval, window);
    assert(times.len() * emission_interval <= window);
    assert(times.len() <= window as int / emission_interval as int) by (nonlinear_arith)
        requires
            emission_interval > 0,
            times.len() * emission_interval <= window,
    ;
}

/// When the request count divides the window exactly, a burst at a single
/// instant never exceeds `requests` admissions, whatever the cell held
/// before.
pub proof fn lemma_burst_bound_requests(tat0: u64, times: Seq<u64>, requests: u32, window: u64)
    requires
        requests >= 1,
        window >= requests,
        window as int % (requests as int) == 0,
        times.len() >= 1,
        forall|i: int| 0 <= i < times.len() ==> times[i] == times.first(),
        all_admitted(tat0, times, spec_emission_interval(requests, window), window),
        times.first() + window < u64::MAX,
    ensures
        times.len() <= requests,
{
    let ei = spec_emission_interval(requests, window);
    assert(ei as int == window as int / requests as int);
    assert(ei as int * requests as int == window && ei >= 1) by (nonlinear_arith)
        requires
            requests >= 1,
            window >= requests,
            window as int % (requests as int) == 0,
            ei as int == window as int / requests as int,
    ;
    lemma_burst_bound(tat0, times, ei, window);
    assert(window as int / ei as int == requests) by (nonlinear_arith)
        requires
            ei >= 1,
            requests >= 1,
            ei as int * requests as int == window,
    ;
}

/// Waiting out a reported delay suffices: if an acquire at `now` is refused
/// with some wait `d`, then an acquire at `now + d` on the unchanged cell is
/// admitted, provided no other acquire touches the cell in between.
pub proof fn lemma_wait_then_admit(tat: u64, now: u64, emission_interval: u64, window: u64)
    requires
        0 < emission_interval <= window,
        tat + emission_interval <= u64::MAX,
        !gcra_admits(tat, now, emission_interval, window),
    ensures
        now + gcra_wait(tat, now, emission_interval, window) <= u64::MAX,
        gcra_admits(
            tat,
            (now + gcra_wait(tat, now, emission_interval, window)) as u64,
            emission_interval,
            window,
        ),
{
    // A refused acquire implies the cell had not recovered: a recovered cell's
    // candidate is at most `now + emission_interval <= now + window`.
    assert(tat > now);
    let cand = gcra_candidate(tat, now, emission_interval);
    assert(cand == tat + emission_interval);
    // The ceiling is below the candidate, which fits in 64 bits, so the
    // ceiling arithmetic did not saturate either.
    assert(gcra_ceiling(now, window) == now + window);
    let d = gcra_wait(tat, now, emission_interval, window);
    assert(d == tat + emission_interval - (now + window));
    assert(now + d == tat + emission_interval - window);
    assert(now + d <= tat);
}

} // verus!
