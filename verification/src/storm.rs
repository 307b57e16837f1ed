//! Replay-storm tracker: a closed-form queueing simulation.
//!
//! A storm profile offers a fixed burst of messages per unit of symbolic
//! time against a fixed processing capacity and a bounded queue. Per step,
//! the processor takes `min(pending, capacity)` messages and everything
//! above the queue bound is dropped. The simulation reports how much was
//! offered, processed and dropped, the deepest queue, and a latency proxy
//! (the time-integral of the queue depth).
//!
//! Rates and ratios are exact rationals kept as parts per million, so the
//! simulation is deterministic integer arithmetic throughout.

use vstd::prelude::*;

use crate::ratio::PPM_SCALE;
use crate::ratio::ratio_reaches;
use crate::ratio::ratio_within;

verus! {

/// Bound on per-step quantities (rates, capacities) that keeps every sum in
/// a simulation inside `u64`.
pub const MAX_RATE: u64 = 1_000_000_000;

/// Bound on a profile's duration in simulation steps.
pub const MAX_DURATION: u64 = 1_000_000;

/// Bound on the queue limit.
pub const MAX_QUEUE_LIMIT: u64 = 1_000_000_000_000;

/// One storm profile: a burst arrival rate sustained for a duration, with
/// the outcome the corpus expects of it.
pub struct Profile {
    pub profile_id: String,
    pub burst_rate: u64,
    pub duration_ms: u64,
    pub expected_drop_ratio_ppm: u64,
    pub alert_threshold_ppm: u64,
    pub expected_alert: bool,
}

/// Everything a storm simulation reports.
pub struct Metrics {
    /// Messages offered over the whole run.
    pub total_offered: u64,
    /// Messages taken by the processor.
    pub processed: u64,
    /// Messages dropped at the queue bound.
    pub dropped: u64,
    /// Messages not dropped: processed, or still queued when the run ends.
    pub accepted: u64,
    /// Queue depth when the run ends.
    pub pending_end: u64,
    /// Deepest queue seen after any step.
    pub max_queue_depth: u64,
    /// Time-integral of the queue depth: the latency proxy's numerator.
    pub latency_integral: u64,
    /// Whether the drop ratio reached the profile's alert threshold.
    pub alert_triggered: bool,
}

/// The running totals of a storm simulation, as mathematical integers.
pub ghost struct StormState {
    pub pending: int,
    pub processed: int,
    pub dropped: int,
    pub total: int,
    pub max_queue: int,
    pub latency_integral: int,
}

/// One simulation step: a burst arrives, the processor drains up to
/// `capacity`, and the queue sheds everything above `limit`.
pub open spec fn storm_step(capacity: int, limit: int, burst: int, st: StormState) -> StormState {
    let arrived = st.pending + burst;
    let processed_now = if arrived <= capacity {
        arrived
    } else {
        capacity
    };
    let queued = arrived - processed_now;
    let overflow = if queued > limit {
        queued - limit
    } else {
        0
    };
    let pending = queued - overflow;
    StormState {
        pending: pending,
        processed: st.processed + processed_now,
        dropped: st.dropped + overflow,
        total: st.total + burst,
        max_queue: if pending > st.max_queue {
            pending
        } else {
            st.max_queue
        },
        latency_integral: st.latency_integral + pending,
    }
}

/// The state after `steps` simulation steps from an empty queue.
pub open spec fn storm_run(capacity: int, limit: int, burst: int, steps: nat) -> StormState
    decreases steps,
{
    if steps == 0 {
        StormState { pending: 0, processed: 0, dropped: 0, total: 0, max_queue: 0, latency_integral: 0 }
    } else {
        storm_step(capacity, limit, burst, storm_run(capacity, limit, burst, (steps - 1) as nat))
    }
}

/// Conservation and range facts of a storm run: nothing is created or lost
/// (what was processed, dropped, or is still queued adds up to what was
/// offered), the queue respects its bound, and every total is within the
/// range the input bounds allow.
pub proof fn lemma_storm_conservation(capacity: int, limit: int, burst: int, steps: nat)
    requires
        capacity >= 0,
        limit >= 0,
        burst >= 0,
    ensures
        ({
            let st = storm_run(capacity, limit, burst, steps);
            &&& st.processed + st.dropped + st.pending == st.total
            &&& st.total == steps * burst
            &&& 0 <= st.pending <= limit
            &&& 0 <= st.dropped <= st.total
            &&& 0 <= st.processed <= st.total
            &&& 0 <= st.max_queue <= limit
            &&& 0 <= st.latency_integral <= steps * limit
        }),
    decreases steps,
{
    if steps > 0 {
        lemma_storm_conservation(capacity, limit, burst, (steps - 1) as nat);
        assert((steps - 1) * burst + burst == steps * burst) by (nonlinear_arith);
        assert((steps - 1) * limit + limit == steps * limit) by (nonlinear_arith);
    }
}

/// The storm simulator: a fixed window, per-step capacity, and queue bound.
pub struct Simulator {
    pub window_size: u64,
    pub capacity_per_ms: u64,
    pub queue_limit: u64,
}

impl Simulator {
    /// The simulator's fields are in the range the simulation arithmetic
    /// needs.
    pub open spec fn wf(&self) -> bool {
        &&& 1 <= self.window_size
        &&& self.capacity_per_ms <= MAX_RATE
        &&& 1 <= self.queue_limit <= MAX_QUEUE_LIMIT
    }

    /// Build a simulator; a missing queue limit defaults to eight windows,
    /// the window to at least one step, and the queue bound to at least one
    /// message.
    pub fn new(window: u64, capacity: u64, queue_limit: Option<u64>) -> (sim: Simulator)
        requires
            window <= MAX_RATE,
            capacity <= MAX_RATE,
            queue_limit matches Some(q) ==> q <= MAX_QUEUE_LIMIT,
        ensures
            sim.wf(),
            sim.window_size == if window >= 1 { window as int } else { 1int },
            sim.capacity_per_ms == capacity,
            sim.queue_limit == {
                let limit = match queue_limit {
                    Some(q) => q as int,
                    None => window * 8,
                };
                if limit >= 1 {
                    limit
                } else {
                    1int
                }
            },
    {
        let limit = match queue_limit {
            Some(q) => q,
            None => window * 8,
        };
        Simulator {
            window_size: if window >= 1 { window } else { 1 },
            capacity_per_ms: capacity,
            queue_limit: if limit >= 1 { limit } else { 1 },
        }
    }

    /// Run the closed-form queue simulation for one profile.
    ///
    /// The metrics are exactly the mathematical run `storm_run` of the
    /// profile against this simulator, `accepted` is everything that was not
    /// dropped, and the alert fires precisely when the drop ratio reaches
    /// the profile's threshold (`dropped / total >= threshold`, compared
    /// exactly; an empty run has drop ratio zero).
    pub fn simulate(&self, profile: &Profile) -> (m: Metrics)
        requires
            self.wf(),
            profile.burst_rate <= MAX_RATE,
            profile.duration_ms <= MAX_DURATION,
        ensures
            ({
                let st = storm_run(
                    self.capacity_per_ms as int,
                    self.queue_limit as int,
                    profile.burst_rate as int,
                    profile.duration_ms as nat,
                );
                &&& m.total_offered == st.total
                &&& m.processed == st.processed
                &&& m.dropped == st.dropped
                &&& m.pending_end == st.pending
                &&& m.max_queue_depth == st.max_queue
                &&& m.latency_integral == st.latency_integral
                &&& m.accepted == st.total - st.dropped
                &&& m.accepted + m.dropped == m.total_offered
                &&& m.dropped <= m.total_offered
                &&& m.alert_triggered == if st.total == 0 {
                    profile.alert_threshold_ppm == 0
                } else {
                    st.dropped * PPM_SCALE >= profile.alert_threshold_ppm * st.total
                }
                &&& m.accepted == st.processed + st.pending
            }),
    {
        let capacity = self.capacity_per_ms;
        let limit = self.queue_limit;
        let burst = profile.burst_rate;
        let steps = profile.duration_ms;

        let mut pending: u64 = 0;
        let mut processed: u64 = 0;
        let mut dropped: u64 = 0;
        let mut total: u64 = 0;
        let mut max_queue: u64 = 0;
        let mut latency_integral: u64 = 0;

        for i in 0..steps
            invariant
                capacity <= MAX_RATE,
                1 <= limit <= MAX_QUEUE_LIMIT,
                burst <= MAX_RATE,
                steps <= MAX_DURATION,
                ({
                    let st = storm_run(capacity as int, limit as int, burst as int, i as nat);
                    &&& pending == st.pending
                    &&& processed == st.processed
                    &&& dropped == st.dropped
                    &&& total == st.total
                    &&& max_queue == st.max_queue
                    &&& latency_integral == st.latency_integral
                }),
        {
            proof {
                lemma_storm_conservation(capacity as int, limit as int, burst as int, i as nat);
                lemma_storm_conservation(capacity as int, limit as int, burst as int, (i + 1) as nat);
                assert(i as int * burst as int <= MAX_DURATION * MAX_RATE) by (nonlinear_arith)
                    requires
                        0 <= i as int <= MAX_DURATION,
                        0 <= burst <= MAX_RATE,
                ;
                assert(i as int * limit as int <= MAX_DURATION * MAX_QUEUE_LIMIT) by (nonlinear_arith)
                    requires
                        0 <= i as int <= MAX_DURATION,
                        0 <= limit <= MAX_QUEUE_LIMIT,
                ;
            }
            pending = pending + burst;
            total = total + burst;

            let processed_now = if pending <= capacity {
                pending
            } else {
                capacity
            };
            pending = pending - processed_now;
            processed = processed + processed_now;

            if pending > limit {
                let overflow = pending - limit;
                pending = pending - overflow;
                dropped = dropped + overflow;
            }

            if pending > max_queue {
                max_queue = pending;
            }
            latency_integral = latency_integral + pending;
        }

        proof {
            lemma_storm_conservation(capacity as int, limit as int, burst as int, steps as nat);
        }
        let alert_triggered = ratio_reaches(dropped, total, profile.alert_threshold_ppm);
        Metrics {
            total_offered: total,
            processed,
            dropped,
            accepted: total - dropped,
            pending_end: pending,
            max_queue_depth: max_queue,
            latency_integral,
            alert_triggered,
        }
    }
}

/// Default tolerance on the drop-ratio comparison, in parts per million.
pub fn default_tolerance() -> (t: u64)
    ensures
        t == 50_000,
{
    50_000
}

/// Whether a simulated profile meets its expectations: the drop ratio is
/// within `tolerance_ppm` of the expected ratio (`|dropped/total -
/// expected| <= tolerance`, compared exactly; an empty run has drop ratio
/// zero), and the alert came out as expected.
pub fn profile_passes(m: &Metrics, profile: &Profile, tolerance_ppm: u64) -> (ok: bool)
    requires
        m.dropped <= m.total_offered,
    ensures
        ok == ({
            let ratio_num = m.dropped * PPM_SCALE;
            let expect_num = profile.expected_drop_ratio_ppm * m.total_offered;
            let tol_num = tolerance_ppm * m.total_offered;
            &&& if m.total_offered == 0 {
                profile.expected_drop_ratio_ppm <= tolerance_ppm
            } else if ratio_num >= expect_num {
                ratio_num - expect_num <= tol_num
            } else {
                expect_num - ratio_num <= tol_num
            }
            &&& m.alert_triggered == profile.expected_alert
        }),
{
    let alert_ok = m.alert_triggered == profile.expected_alert;
    let ratio_ok = ratio_within(
        m.dropped,
        m.total_offered,
        profile.expected_drop_ratio_ppm,
        tolerance_ppm,
    );
    ratio_ok && alert_ok
}

} // verus!
