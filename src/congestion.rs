//! Sender pacing: a TCP-like rate controller driven by the receiver's
//! FlowControl reports (slow start, then congestion avoidance).
use crate::message::FlowControlMessage;
use vstd::prelude::*;

verus! {

/// One megabyte, 10^6 bytes.
pub const MB: u64 = 1_000_000;

/// Lowest pacing rate, bytes per second.
pub const MIN_RATE: u64 = 50_000_000;

/// Highest pacing rate, bytes per second.
pub const MAX_RATE: u64 = 1_000_000_000;

/// Highest initial rate that a receiver's hint can set.
pub const MAX_INITIAL_RATE: u64 = 500_000_000;

/// Additive increase per report in congestion avoidance.
pub const RATE_STEP: u64 = 50_000_000;

/// The controller's decision state.
pub struct RateState {
    pub rate: nat,
    pub ssthresh: nat,
    pub in_slow_start: bool,
}

pub open spec fn clamp_rate(r: int) -> nat {
    if r < MIN_RATE {
        MIN_RATE as nat
    } else if r > MAX_RATE {
        MAX_RATE as nat
    } else {
        r as nat
    }
}

/// Whether a measured rate counts as loss: below 70% of the target.
pub open spec fn is_loss(rate: nat, measured: nat) -> bool {
    measured < rate * 70 / 100
}

/// One report's effect: on loss halve the rate into the threshold and leave
/// slow start; in slow start double the rate up to the threshold; otherwise
/// add a step. The rate is then clamped.
pub open spec fn feedback_step(s: RateState, measured: nat) -> RateState {
    if is_loss(s.rate, measured) {
        RateState { rate: clamp_rate(s.rate as int / 2), ssthresh: s.rate / 2, in_slow_start: false }
    } else if s.in_slow_start {
        if s.rate * 2 >= s.ssthresh {
            RateState { rate: clamp_rate(s.ssthresh as int), ssthresh: s.ssthresh, in_slow_start: false }
        } else {
            RateState { rate: clamp_rate(s.rate as int * 2), ssthresh: s.ssthresh, in_slow_start: true }
        }
    } else {
        RateState { rate: clamp_rate(s.rate + RATE_STEP as int), ssthresh: s.ssthresh, in_slow_start: false }
    }
}

/// Bytes per second over `elapsed_us`, capped at `u64::MAX`.
pub open spec fn measured_rate(bytes: nat, elapsed_us: nat) -> nat {
    let m = bytes * 1_000_000 / elapsed_us;
    if m > u64::MAX {
        u64::MAX as nat
    } else {
        m
    }
}

/// Pacing rate is monotone under reports: a report measured below 70% of a
/// rate above the floor lowers it; one at or above 70% in slow start doubles
/// it, stopping at the threshold; one in congestion avoidance adds a step,
/// stopping at the ceiling.
pub proof fn lemma_pacing_monotone(s: RateState, measured: nat)
    requires
        MIN_RATE <= s.rate <= MAX_RATE,
        s.ssthresh <= MAX_RATE,
    ensures
        is_loss(s.rate, measured) && s.rate > MIN_RATE ==> feedback_step(s, measured).rate < s.rate,
        is_loss(s.rate, measured) ==> !feedback_step(s, measured).in_slow_start,
        !is_loss(s.rate, measured) && s.in_slow_start && s.rate * 2 < s.ssthresh ==> feedback_step(
            s,
            measured,
        ).rate == s.rate * 2,
        !is_loss(s.rate, measured) && s.in_slow_start && s.rate * 2 >= s.ssthresh ==> feedback_step(
            s,
            measured,
        ).rate == clamp_rate(s.ssthresh as int) && !feedback_step(s, measured).in_slow_start,
        !is_loss(s.rate, measured) && !s.in_slow_start ==> feedback_step(s, measured).rate == if s.rate
            + RATE_STEP > MAX_RATE {
            MAX_RATE as int
        } else {
            s.rate + RATE_STEP
        },
{
}

/// Two reports in a row below 70% of the rate each lower it while it is above
/// the floor.
pub proof fn lemma_two_losses_lower_twice(s: RateState, m1: nat, m2: nat)
    requires
        MIN_RATE <= s.rate <= MAX_RATE,
        s.ssthresh <= MAX_RATE,
        is_loss(s.rate, m1),
        is_loss(feedback_step(s, m1).rate, m2),
        feedback_step(s, m1).rate > MIN_RATE,
    ensures
        feedback_step(s, m1).rate < s.rate,
        feedback_step(feedback_step(s, m1), m2).rate < feedback_step(s, m1).rate,
{
}

/// The effect of one FlowControl report at `now_us`. The session's first
/// report with a non-zero rate seeds the rate from it (MB/s, clamped to
/// 50..=500 MB/s, threshold twice that). A later report, stamped after the
/// last one used, measures the bytes of the segments
/// completed since (`bytes_per_segment` each, capped at `u64::MAX`) over that
/// time and applies `feedback_step`. Any other report changes nothing.
pub open spec fn flow_post(
    c0: CongestionControl,
    c1: CongestionControl,
    fc: FlowControlMessage,
    now_us: u64,
    bytes_per_segment: u64,
) -> bool {
    if c0.awaiting_first_report && fc.processing_rate > 0 {
        let r = fc.processing_rate as int * MB;
        let c = if r < MIN_RATE {
            MIN_RATE as int
        } else if r > MAX_INITIAL_RATE {
            MAX_INITIAL_RATE as int
        } else {
            r
        };
        &&& !c1.awaiting_first_report
        &&& c1.prev_report_us == now_us
        &&& c1.prev_completed == c0.prev_completed
        &&& c1.in_slow_start == c0.in_slow_start
        &&& c1.measured_rate == c0.measured_rate
        &&& (c0.initialized ==> c1.send_rate == c0.send_rate && c1.ssthresh == c0.ssthresh
            && c1.initialized)
        &&& (!c0.initialized ==> c1.send_rate == c && c1.ssthresh == 2 * c && c1.initialized)
    } else if now_us > c0.prev_report_us {
        let elapsed = now_us - c0.prev_report_us;
        let done = if fc.processing_rate >= c0.prev_completed {
            fc.processing_rate - c0.prev_completed
        } else {
            0
        };
        let bytes = done * bytes_per_segment;
        let capped = if bytes > u64::MAX {
            u64::MAX as int
        } else {
            bytes
        };
        let m = measured_rate(capped as nat, elapsed as nat);
        &&& c1.state() == feedback_step(c0.state(), m)
        &&& c1.measured_rate == m
        &&& c1.prev_completed == fc.processing_rate
        &&& c1.prev_report_us == now_us
        &&& c1.awaiting_first_report == c0.awaiting_first_report
        &&& c1.initialized == c0.initialized
    } else {
        c1 == c0
    }
}

/// TCP-like pacing controller (rates in bytes per second).
#[derive(Debug)]
pub struct CongestionControl {
    pub send_rate: u64,
    pub measured_rate: u64,
    pub ssthresh: u64,
    pub in_slow_start: bool,
    /// Whether the receiver's initial hint has been applied.
    pub initialized: bool,
    /// Whether the next FlowControl is the session's first.
    pub awaiting_first_report: bool,
    /// Completed-segment count of the last report used.
    pub prev_completed: u64,
    /// Time of the last report used, in microseconds.
    pub prev_report_us: u64,
}

impl CongestionControl {
    pub open spec fn state(&self) -> RateState {
        RateState {
            rate: self.send_rate as nat,
            ssthresh: self.ssthresh as nat,
            in_slow_start: self.in_slow_start,
        }
    }

    pub open spec fn wf(&self) -> bool {
        MIN_RATE <= self.send_rate <= MAX_RATE && self.ssthresh <= MAX_RATE
    }

    /// Starts at 50 MB/s in slow start with a 500 MB/s threshold.
    pub fn new(now_us: u64) -> (r: CongestionControl)
        ensures
            r.wf(),
            r.send_rate == MIN_RATE,
            r.ssthresh == MAX_INITIAL_RATE,
            r.in_slow_start,
            !r.initialized,
            r.awaiting_first_report,
            r.prev_completed == 0,
            r.prev_report_us == now_us,
    {
        CongestionControl {
            send_rate: MIN_RATE,
            measured_rate: 0,
            ssthresh: MAX_INITIAL_RATE,
            in_slow_start: true,
            initialized: false,
            awaiting_first_report: true,
            prev_completed: 0,
            prev_report_us: now_us,
        }
    }

    /// Seeds the rate from the receiver's hint in MB/s, clamped to
    /// 50..=500 MB/s, with the threshold at twice that. Only the first call
    /// has an effect.
    pub fn set_initial_rate(&mut self, rate_mbps: u32)
        requires
            old(self).wf(),
        ensures
            final(self).wf(),
            old(self).initialized ==> *final(self) == *old(self),
            !old(self).initialized ==> {
                let r = rate_mbps as int * MB;
                let c = if r < MIN_RATE {
                    MIN_RATE as int
                } else if r > MAX_INITIAL_RATE {
                    MAX_INITIAL_RATE as int
                } else {
                    r
                };
                &&& final(self).send_rate == c
                &&& final(self).ssthresh == 2 * c
                &&& final(self).initialized
                &&& final(self).in_slow_start == old(self).in_slow_start
                &&& final(self).measured_rate == old(self).measured_rate
                &&& final(self).awaiting_first_report == old(self).awaiting_first_report
                &&& final(self).prev_completed == old(self).prev_completed
                &&& final(self).prev_report_us == old(self).prev_report_us
            },
    {
        if !self.initialized {
            let r = rate_mbps as u64 * MB;
            let c = if r < MIN_RATE {
                MIN_RATE
            } else if r > MAX_INITIAL_RATE {
                MAX_INITIAL_RATE
            } else {
                r
            };
            self.send_rate = c;
            self.ssthresh = c * 2;
            self.initialized = true;
        }
    }

    /// Applies one measurement of `received_bytes` over `elapsed_us` (no
    /// bytes measure a rate of 0, which is loss); a report with no time is
    /// ignored.
    pub fn on_feedback(&mut self, received_bytes: u64, elapsed_us: u64)
        requires
            old(self).wf(),
        ensures
            final(self).wf(),
            elapsed_us == 0 ==> *final(self) == *old(self),
            elapsed_us > 0 ==> {
                let m = measured_rate(received_bytes as nat, elapsed_us as nat);
                &&& final(self).state() == feedback_step(old(self).state(), m)
                &&& final(self).measured_rate == m
                &&& final(self).initialized == old(self).initialized
                &&& final(self).awaiting_first_report == old(self).awaiting_first_report
                &&& final(self).prev_completed == old(self).prev_completed
                &&& final(self).prev_report_us == old(self).prev_report_us
            },
    {
        if elapsed_us == 0 {
            return;
        }
        let m128 = received_bytes as u128 * 1_000_000 / elapsed_us as u128;
        let measured: u64 = if m128 > u64::MAX as u128 {
            u64::MAX
        } else {
            m128 as u64
        };
        self.measured_rate = measured;
        let rate = self.send_rate;
        let loss = (measured as u128) < (rate as u128) * 70 / 100;
        let next: u64;
        if loss {
            self.ssthresh = rate / 2;
            next = rate / 2;
            self.in_slow_start = false;
        } else if self.in_slow_start {
            if rate * 2 >= self.ssthresh {
                self.in_slow_start = false;
                next = self.ssthresh;
            } else {
                next = rate * 2;
            }
        } else {
            next = rate + RATE_STEP;
        }
        self.send_rate = if next < MIN_RATE {
            MIN_RATE
        } else if next > MAX_RATE {
            MAX_RATE
        } else {
            next
        };
    }

    /// Handles a FlowControl report received at `now_us` (see `flow_post`).
    pub fn handle_flow_control(&mut self, fc: &FlowControlMessage, now_us: u64, bytes_per_segment: u64)
        requires
            old(self).wf(),
        ensures
            final(self).wf(),
            flow_post(*old(self), *final(self), *fc, now_us, bytes_per_segment),
    {
        if self.awaiting_first_report && fc.processing_rate > 0 {
            self.set_initial_rate(fc.processing_rate);
            self.awaiting_first_report = false;
            self.prev_report_us = now_us;
            return;
        }
        if now_us > self.prev_report_us {
            let elapsed = now_us - self.prev_report_us;
            let completed = fc.processing_rate as u64;
            let done = if completed >= self.prev_completed {
                completed - self.prev_completed
            } else {
                0
            };
            assert(done as u128 * bytes_per_segment as u128 <= u128::MAX) by (nonlinear_arith)
                requires
                    done <= u64::MAX,
                    bytes_per_segment <= u64::MAX,
            ;
            let bytes = done as u128 * bytes_per_segment as u128;
            let capped: u64 = if bytes <= u64::MAX as u128 {
                bytes as u64
            } else {
                u64::MAX
            };
            self.on_feedback(capped, elapsed);
            self.prev_completed = completed;
            self.prev_report_us = now_us;
        }
    }

    /// Microseconds that `batch_bytes` take at the current rate.
    pub fn batch_delay_us(&self, batch_bytes: u64) -> (r: u64)
        requires
            self.wf(),
        ensures
            r == batch_bytes as int * 1_000_000 / self.send_rate as int,
    {
        let d = batch_bytes as u128 * 1_000_000 / self.send_rate as u128;
        assert(d <= batch_bytes as int) by (nonlinear_arith)
            requires
                d == batch_bytes as int * 1_000_000 / self.send_rate as int,
                self.send_rate >= MIN_RATE,
        ;
        d as u64
    }
}

} // verus!
