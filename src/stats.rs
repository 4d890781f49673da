//! Transfer statistics: per-link arrival windows, loss and RTT samples, and
//! session totals. Times are microseconds supplied by the caller; rates are
//! integers per second; ratios are parts per million.
use vstd::prelude::*;
use vstd::string::*;

verus! {

/// RTT samples kept per link.
pub const RTT_SAMPLES: usize = 10;

/// One chunk arrival on a link.
#[derive(Debug, Clone, Copy)]
pub struct ChunkArrival {
    pub timestamp_us: u64,
    pub size: usize,
}

pub open spec fn sat_add(a: u64, b: int) -> u64 {
    if a + b > u64::MAX {
        u64::MAX
    } else {
        (a + b) as u64
    }
}

/// The window after one more entry: the oldest leaves when the window is full.
pub open spec fn slide<T>(s: Seq<T>, cap: int, x: T) -> Seq<T> {
    if s.len() >= cap && s.len() > 0 {
        s.drop_first().push(x)
    } else {
        s.push(x)
    }
}

pub open spec fn sum_sizes(s: Seq<ChunkArrival>) -> nat
    decreases s.len(),
{
    if s.len() == 0 {
        0
    } else {
        sum_sizes(s.drop_last()) + s.last().size as nat
    }
}

pub open spec fn sum_u64(s: Seq<u64>) -> nat
    decreases s.len(),
{
    if s.len() == 0 {
        0
    } else {
        sum_u64(s.drop_last()) + s.last() as nat
    }
}

/// Time spanned by a window: last minus first arrival, 0 if they are out of
/// order or fewer than two.
pub open spec fn window_span(s: Seq<ChunkArrival>) -> int {
    if s.len() < 2 || s.last().timestamp_us <= s[0].timestamp_us {
        0
    } else {
        s.last().timestamp_us - s[0].timestamp_us
    }
}

/// `x * 1_000_000 / d`, capped at `u64::MAX`.
pub open spec fn per_second(x: int, d: int) -> u64 {
    let r = x * 1_000_000 / d;
    if r > u64::MAX {
        u64::MAX
    } else {
        r as u64
    }
}

/// `part * 1_000_000 / whole`: the share in parts per million, 0 for no whole.
pub open spec fn ppm_of(part: int, whole: int) -> int {
    if whole == 0 {
        0
    } else {
        part * 1_000_000 / whole
    }
}

/// Computes `x * 1_000_000 / d` with a cap at `u64::MAX`.
pub fn rate_per_second(x: u64, d: u64) -> (r: u64)
    requires
        d > 0,
    ensures
        r == per_second(x as int, d as int),
{
    let v = x as u128 * 1_000_000 / d as u128;
    if v > u64::MAX as u128 {
        u64::MAX
    } else {
        v as u64
    }
}

/// Computes `part * 1_000_000 / whole` for `part <= whole`.
pub fn share_ppm(part: u64, whole: u64) -> (r: u32)
    requires
        part <= whole,
    ensures
        r == ppm_of(part as int, whole as int),
        r <= 1_000_000,
{
    if whole == 0 {
        return 0;
    }
    let v = part as u128 * 1_000_000 / whole as u128;
    assert(v <= 1_000_000) by (nonlinear_arith)
        requires
            v == part as int * 1_000_000 / whole as int,
            part <= whole,
            whole > 0,
    ;
    v as u32
}

/// Bytes per second over a link's window, as `NicStats::throughput` gives it.
pub open spec fn throughput_of(s: NicStats) -> u64 {
    if window_span(s.arrivals@) == 0 {
        0
    } else if sum_sizes(s.arrivals@) > u64::MAX {
        u64::MAX
    } else {
        per_second(sum_sizes(s.arrivals@) as int, window_span(s.arrivals@))
    }
}

/// Sum of the links' throughputs.
pub open spec fn sum_throughput(s: Seq<NicStats>) -> nat
    decreases s.len(),
{
    if s.len() == 0 {
        0
    } else {
        sum_throughput(s.drop_last()) + throughput_of(s.last()) as nat
    }
}

/// Statistics of one link.
#[derive(Debug, Clone)]
pub struct NicStats {
    pub nic_id: u8,
    pub arrivals: Vec<ChunkArrival>,
    pub window_size: usize,
    pub total_chunks: u64,
    pub total_bytes: u64,
    /// Chunks reported missing by NACKs.
    pub lost_chunks: u64,
    pub duplicate_chunks: u64,
    pub rtt_samples: Vec<u64>,
    pub last_update_us: u64,
}

impl NicStats {
    pub fn new(nic_id: u8, window_size: usize, now_us: u64) -> (r: NicStats)
        ensures
            r.nic_id == nic_id,
            r.window_size == window_size,
            r.arrivals@.len() == 0,
            r.rtt_samples@.len() == 0,
            r.total_chunks == 0,
            r.total_bytes == 0,
            r.lost_chunks == 0,
            r.duplicate_chunks == 0,
            r.last_update_us == now_us,
    {
        NicStats {
            nic_id,
            arrivals: Vec::new(),
            window_size,
            total_chunks: 0,
            total_bytes: 0,
            lost_chunks: 0,
            duplicate_chunks: 0,
            rtt_samples: Vec::new(),
            last_update_us: now_us,
        }
    }

    /// Records a chunk of `size` bytes arriving at `now_us`; the window keeps
    /// the latest `window_size` arrivals. Totals saturate.
    pub fn record_arrival(&mut self, size: usize, now_us: u64)
        ensures
            final(self).arrivals@ == slide(
                old(self).arrivals@,
                old(self).window_size as int,
                ChunkArrival { timestamp_us: now_us, size },
            ),
            final(self).total_chunks == sat_add(old(self).total_chunks, 1),
            final(self).total_bytes == sat_add(old(self).total_bytes, size as int),
            final(self).last_update_us == now_us,
            final(self).nic_id == old(self).nic_id,
            final(self).window_size == old(self).window_size,
            final(self).lost_chunks == old(self).lost_chunks,
            final(self).duplicate_chunks == old(self).duplicate_chunks,
            final(self).rtt_samples@ == old(self).rtt_samples@,
    {
        if self.arrivals.len() >= self.window_size && self.arrivals.len() > 0 {
            self.arrivals.remove(0);
            assert(self.arrivals@ =~= old(self).arrivals@.drop_first());
        }
        self.arrivals.push(ChunkArrival { timestamp_us: now_us, size });
        self.total_chunks = self.total_chunks.saturating_add(1);
        self.total_bytes = self.total_bytes.saturating_add(size as u64);
        self.last_update_us = now_us;
    }

    /// Adds `count` chunks reported lost (saturating).
    pub fn record_loss(&mut self, count: u64)
        ensures
            final(self).lost_chunks == sat_add(old(self).lost_chunks, count as int),
            *final(self) == (NicStats { lost_chunks: final(self).lost_chunks, ..*old(self) }),
    {
        self.lost_chunks = self.lost_chunks.saturating_add(count);
    }

    /// Counts one duplicate arrival (saturating).
    pub fn record_duplicate(&mut self)
        ensures
            final(self).duplicate_chunks == sat_add(old(self).duplicate_chunks, 1),
            *final(self) == (NicStats { duplicate_chunks: final(self).duplicate_chunks, ..*old(self) }),
    {
        self.duplicate_chunks = self.duplicate_chunks.saturating_add(1);
    }

    /// Records an RTT sample; the latest ten are kept.
    pub fn record_rtt(&mut self, rtt_us: u64)
        ensures
            final(self).rtt_samples@ == slide(old(self).rtt_samples@, RTT_SAMPLES as int, rtt_us),
            *final(self) == (NicStats { rtt_samples: final(self).rtt_samples, ..*old(self) }),
    {
        if self.rtt_samples.len() >= RTT_SAMPLES {
            self.rtt_samples.remove(0);
            assert(self.rtt_samples@ =~= old(self).rtt_samples@.drop_first());
        }
        self.rtt_samples.push(rtt_us);
    }

    fn span_us(&self) -> (r: u64)
        ensures
            r == window_span(self.arrivals@),
    {
        let n = self.arrivals.len();
        if n < 2 {
            return 0;
        }
        let first = self.arrivals[0].timestamp_us;
        let last = self.arrivals[n - 1].timestamp_us;
        if last <= first {
            0
        } else {
            last - first
        }
    }

    /// Arrivals per second over the window: `(N - 1) / span`; 0 with fewer
    /// than two arrivals or no span.
    pub fn chunk_arrival_rate(&self) -> (r: u64)
        ensures
            window_span(self.arrivals@) == 0 ==> r == 0,
            window_span(self.arrivals@) > 0 ==> r == per_second(
                self.arrivals@.len() - 1,
                window_span(self.arrivals@),
            ),
    {
        let d = self.span_us();
        if d == 0 {
            return 0;
        }
        rate_per_second((self.arrivals.len() - 1) as u64, d)
    }

    /// Bytes per second over the window: `sum(size) / span`; 0 with fewer
    /// than two arrivals or no span.
    pub fn throughput(&self) -> (r: u64)
        ensures
            r == throughput_of(*self),
            window_span(self.arrivals@) == 0 ==> r == 0,
            window_span(self.arrivals@) > 0 && sum_sizes(self.arrivals@) <= u64::MAX ==> r
                == per_second(sum_sizes(self.arrivals@) as int, window_span(self.arrivals@)),
            window_span(self.arrivals@) > 0 && sum_sizes(self.arrivals@) > u64::MAX ==> r
                == u64::MAX,
    {
        let d = self.span_us();
        if d == 0 {
            return 0;
        }
        let mut total: u64 = 0;
        let mut saturated = false;
        let mut i: usize = 0;
        while i < self.arrivals.len()
            invariant
                i <= self.arrivals@.len(),
                !saturated ==> total == sum_sizes(self.arrivals@.subrange(0, i as int)),
                saturated ==> sum_sizes(self.arrivals@.subrange(0, i as int)) > u64::MAX,
            decreases self.arrivals@.len() - i,
        {
            let ghost prev = self.arrivals@.subrange(0, i as int);
            assert(self.arrivals@.subrange(0, i + 1).drop_last() =~= prev);
            let s = self.arrivals[i].size as u64;
            if !saturated {
                if total > u64::MAX - s {
                    saturated = true;
                } else {
                    total = total + s;
                }
            }
            i = i + 1;
        }
        assert(self.arrivals@.subrange(0, self.arrivals@.len() as int) =~= self.arrivals@);
        if saturated {
            u64::MAX
        } else {
            let r = rate_per_second(total, d);
            r
        }
    }

    /// Share of chunks lost among received and lost, in parts per million.
    pub fn loss_rate(&self) -> (r: u32)
        ensures
            r == ppm_of(self.lost_chunks as int, self.total_chunks + self.lost_chunks),
            r <= 1_000_000,
    {
        let whole = self.total_chunks as u128 + self.lost_chunks as u128;
        if whole == 0 {
            return 0;
        }
        let v = self.lost_chunks as u128 * 1_000_000 / whole;
        assert(v <= 1_000_000) by (nonlinear_arith)
            requires
                v == self.lost_chunks as int * 1_000_000 / whole as int,
                self.lost_chunks <= whole,
                whole > 0,
        ;
        v as u32
    }

    /// Mean of the kept RTT samples, if any.
    pub fn average_rtt_us(&self) -> (r: Option<u64>)
        ensures
            self.rtt_samples@.len() == 0 ==> r.is_none(),
            self.rtt_samples@.len() > 0 ==> r == Some(
                (sum_u64(self.rtt_samples@) / self.rtt_samples@.len() as nat) as u64,
            ),
    {
        let n = self.rtt_samples.len();
        if n == 0 {
            return None;
        }
        let mut total: u128 = 0;
        let mut i: usize = 0;
        while i < n
            invariant
                i <= n,
                n == self.rtt_samples@.len(),
                total == sum_u64(self.rtt_samples@.subrange(0, i as int)),
                total <= i * u64::MAX,
                n <= usize::MAX,
            decreases n - i,
        {
            assert(self.rtt_samples@.subrange(0, i + 1).drop_last() =~= self.rtt_samples@.subrange(
                0,
                i as int,
            ));
            assert(total + self.rtt_samples[i as int] <= (i + 1) * u64::MAX) by (nonlinear_arith)
                requires
                    total <= i * u64::MAX,
                    self.rtt_samples[i as int] <= u64::MAX,
            ;
            assert((i + 1) * u64::MAX <= u128::MAX) by (nonlinear_arith)
                requires
                    i < usize::MAX,
                    usize::MAX <= u64::MAX,
            ;
            total = total + self.rtt_samples[i] as u128;
            i = i + 1;
        }
        assert(self.rtt_samples@.subrange(0, n as int) =~= self.rtt_samples@);
        let avg = total / n as u128;
        assert(avg <= u64::MAX) by (nonlinear_arith)
            requires
                avg as int == total as int / n as int,
                total <= n * u64::MAX,
                n > 0,
        ;
        Some(avg as u64)
    }

    /// Clears windows and totals.
    pub fn reset(&mut self, now_us: u64)
        ensures
            final(self).arrivals@.len() == 0,
            final(self).rtt_samples@.len() == 0,
            final(self).total_chunks == 0,
            final(self).total_bytes == 0,
            final(self).lost_chunks == 0,
            final(self).duplicate_chunks == 0,
            final(self).last_update_us == now_us,
            final(self).nic_id == old(self).nic_id,
            final(self).window_size == old(self).window_size,
    {
        self.arrivals.clear();
        self.total_chunks = 0;
        self.total_bytes = 0;
        self.lost_chunks = 0;
        self.duplicate_chunks = 0;
        self.rtt_samples.clear();
        self.last_update_us = now_us;
    }
}

pub open spec fn sum_lost(s: Seq<NicStats>) -> nat
    decreases s.len(),
{
    if s.len() == 0 {
        0
    } else {
        sum_lost(s.drop_last()) + s.last().lost_chunks as nat
    }
}

/// Totals of one transfer.
#[derive(Debug, Clone)]
pub struct TransferStats {
    pub start_time_us: u64,
    pub total_segments: u64,
    pub completed_segments: u64,
    pub total_bytes: u64,
    pub total_chunks: u64,
    pub retransmitted_chunks: u64,
    pub redundant_chunks: u64,
    pub nic_stats: Vec<NicStats>,
    pub last_nack_time_us: Option<u64>,
    pub total_nacks: u64,
}

impl TransferStats {
    /// Lost chunks over all links, capped at `u64::MAX`.
    pub open spec fn lost_spec(&self) -> int {
        if sum_lost(self.nic_stats@) > u64::MAX {
            u64::MAX as int
        } else {
            sum_lost(self.nic_stats@) as int
        }
    }

    /// Overall loss rate in parts per million.
    pub open spec fn loss_spec(&self) -> int {
        ppm_of(self.lost_spec(), self.total_chunks + self.lost_spec())
    }

    pub open spec fn elapsed_spec(&self, now_us: u64) -> int {
        if now_us >= self.start_time_us {
            now_us - self.start_time_us
        } else {
            0
        }
    }

    pub open spec fn throughput_spec(&self, now_us: u64) -> int {
        if now_us <= self.start_time_us {
            0
        } else {
            per_second(self.total_bytes as int, now_us - self.start_time_us) as int
        }
    }

    /// Zeroed totals and one fresh record per link, ids `0..nic_count`.
    pub fn new(nic_count: usize, window_size: usize, now_us: u64) -> (r: TransferStats)
        requires
            nic_count <= 256,
        ensures
            r.start_time_us == now_us,
            r.total_segments == 0,
            r.completed_segments == 0,
            r.total_bytes == 0,
            r.total_chunks == 0,
            r.retransmitted_chunks == 0,
            r.redundant_chunks == 0,
            r.last_nack_time_us.is_none(),
            r.total_nacks == 0,
            r.nic_stats@.len() == nic_count,
            forall|i: int|
                0 <= i < nic_count ==> {
                    &&& (#[trigger] r.nic_stats@[i]).nic_id == i
                    &&& r.nic_stats@[i].window_size == window_size
                    &&& r.nic_stats@[i].arrivals@.len() == 0
                    &&& r.nic_stats@[i].lost_chunks == 0
                    &&& r.nic_stats@[i].total_chunks == 0
                    &&& r.nic_stats@[i].total_bytes == 0
                    &&& r.nic_stats@[i].duplicate_chunks == 0
                    &&& r.nic_stats@[i].rtt_samples@.len() == 0
                    &&& r.nic_stats@[i].last_update_us == now_us
                },
    {
        let mut nic_stats: Vec<NicStats> = Vec::new();
        let mut i: usize = 0;
        while i < nic_count
            invariant
                i <= nic_count <= 256,
                nic_stats@.len() == i,
                forall|k: int|
                    0 <= k < i ==> {
                        &&& (#[trigger] nic_stats@[k]).nic_id == k
                        &&& nic_stats@[k].window_size == window_size
                        &&& nic_stats@[k].arrivals@.len() == 0
                        &&& nic_stats@[k].lost_chunks == 0
                        &&& nic_stats@[k].total_chunks == 0
                        &&& nic_stats@[k].total_bytes == 0
                        &&& nic_stats@[k].duplicate_chunks == 0
                        &&& nic_stats@[k].rtt_samples@.len() == 0
                        &&& nic_stats@[k].last_update_us == now_us
                    },
            decreases nic_count - i,
        {
            nic_stats.push(NicStats::new(i as u8, window_size, now_us));
            i = i + 1;
        }
        TransferStats {
            start_time_us: now_us,
            total_segments: 0,
            completed_segments: 0,
            total_bytes: 0,
            total_chunks: 0,
            retransmitted_chunks: 0,
            redundant_chunks: 0,
            nic_stats,
            last_nack_time_us: None,
            total_nacks: 0,
        }
    }

    /// Microseconds since the start, 0 if `now_us` is earlier.
    pub fn elapsed(&self, now_us: u64) -> (r: u64)
        ensures
            r == if now_us >= self.start_time_us {
                now_us - self.start_time_us
            } else {
                0
            },
    {
        if now_us >= self.start_time_us {
            now_us - self.start_time_us
        } else {
            0
        }
    }

    /// Bytes per second since the start; 0 when no time has passed.
    pub fn overall_throughput(&self, now_us: u64) -> (r: u64)
        ensures
            now_us <= self.start_time_us ==> r == 0,
            now_us > self.start_time_us ==> r == per_second(
                self.total_bytes as int,
                now_us - self.start_time_us,
            ),
    {
        let e = self.elapsed(now_us);
        if e == 0 {
            return 0;
        }
        rate_per_second(self.total_bytes, e)
    }

    /// Bytes per second of first copies only: chunks minus redundant and
    /// retransmitted ones, at the mean chunk size (1200 before any chunk).
    pub fn effective_throughput(&self, now_us: u64) -> (r: u64)
        ensures
            now_us <= self.start_time_us ==> r == 0,
            now_us > self.start_time_us ==> {
                let eff = self.total_chunks - self.redundant_chunks - self.retransmitted_chunks;
                let eff_n = if eff < 0 {
                    0
                } else {
                    eff
                };
                let bytes = if self.total_chunks > 0 {
                    eff_n * self.total_bytes / self.total_chunks as int
                } else {
                    eff_n * 1200
                };
                r == per_second(bytes, now_us - self.start_time_us)
            },
    {
        let e = self.elapsed(now_us);
        if e == 0 {
            return 0;
        }
        let eff = self.total_chunks.saturating_sub(self.redundant_chunks).saturating_sub(
            self.retransmitted_chunks,
        );
        let bytes: u128 = if self.total_chunks > 0 {
            assert(eff as u128 * self.total_bytes as u128 <= u128::MAX) by (nonlinear_arith)
                requires
                    eff <= u64::MAX,
                    self.total_bytes <= u64::MAX,
            ;
            eff as u128 * self.total_bytes as u128 / self.total_chunks as u128
        } else {
            eff as u128 * 1200
        };
        assert(bytes <= u64::MAX * 1200) by (nonlinear_arith)
            requires
                eff <= self.total_chunks || self.total_chunks == 0,
                self.total_chunks > 0 ==> bytes as int == eff as int * self.total_bytes as int
                    / self.total_chunks as int,
                self.total_chunks == 0 ==> bytes == eff * 1200,
                eff <= u64::MAX,
                self.total_bytes <= u64::MAX,
        ;
        let v = bytes * 1_000_000 / e as u128;
        if v > u64::MAX as u128 {
            u64::MAX
        } else {
            v as u64
        }
    }

    /// Chunks reported lost over all links, capped at `u64::MAX`.
    pub fn total_lost(&self) -> (r: u64)
        ensures
            r == if sum_lost(self.nic_stats@) > u64::MAX {
                u64::MAX as nat
            } else {
                sum_lost(self.nic_stats@)
            },
    {
        let mut total: u128 = 0;
        let mut i: usize = 0;
        while i < self.nic_stats.len()
            invariant
                i <= self.nic_stats@.len(),
                total == sum_lost(self.nic_stats@.subrange(0, i as int)),
                total <= i * u64::MAX,
            decreases self.nic_stats@.len() - i,
        {
            assert(self.nic_stats@.subrange(0, i + 1).drop_last() =~= self.nic_stats@.subrange(
                0,
                i as int,
            ));
            assert(total + self.nic_stats@[i as int].lost_chunks <= (i + 1) * u64::MAX
                <= u128::MAX) by (nonlinear_arith)
                requires
                    total <= i * u64::MAX,
                    self.nic_stats@[i as int].lost_chunks <= u64::MAX,
                    i < usize::MAX,
                    usize::MAX <= u64::MAX,
            ;
            total = total + self.nic_stats[i].lost_chunks as u128;
            i = i + 1;
        }
        assert(self.nic_stats@.subrange(0, self.nic_stats@.len() as int) =~= self.nic_stats@);
        if total > u64::MAX as u128 {
            u64::MAX
        } else {
            total as u64
        }
    }

    /// Share of chunks lost over all links among received and lost, in parts
    /// per million.
    pub fn overall_loss_rate(&self) -> (r: u32)
        ensures
            r == self.loss_spec(),
            r <= 1_000_000,
    {
        let lost = self.total_lost() as u128;
        let whole = lost + self.total_chunks as u128;
        if whole == 0 {
            return 0;
        }
        let v = lost * 1_000_000 / whole;
        assert(v <= 1_000_000) by (nonlinear_arith)
            requires
                v as int == lost as int * 1_000_000 / whole as int,
                lost <= whole,
                whole > 0,
        ;
        v as u32
    }
}

/// The character of a decimal digit.
pub open spec fn digit_char(d: nat) -> char {
    if d == 0 {
        '0'
    } else if d == 1 {
        '1'
    } else if d == 2 {
        '2'
    } else if d == 3 {
        '3'
    } else if d == 4 {
        '4'
    } else if d == 5 {
        '5'
    } else if d == 6 {
        '6'
    } else if d == 7 {
        '7'
    } else if d == 8 {
        '8'
    } else {
        '9'
    }
}

/// Decimal digits of `n`, most significant first.
pub open spec fn decimal(n: nat) -> Seq<char>
    decreases n,
{
    if n < 10 {
        seq![digit_char(n)]
    } else {
        decimal(n / 10) + seq![digit_char(n % 10)]
    }
}

fn digit_str(d: u64) -> (r: &'static str)
    requires
        d < 10,
    ensures
        r@ == seq![digit_char(d as nat)],
{
    proof {
        reveal_strlit("0");
        reveal_strlit("1");
        reveal_strlit("2");
        reveal_strlit("3");
        reveal_strlit("4");
        reveal_strlit("5");
        reveal_strlit("6");
        reveal_strlit("7");
        reveal_strlit("8");
        reveal_strlit("9");
    }
    if d == 0 {
        "0"
    } else if d == 1 {
        "1"
    } else if d == 2 {
        "2"
    } else if d == 3 {
        "3"
    } else if d == 4 {
        "4"
    } else if d == 5 {
        "5"
    } else if d == 6 {
        "6"
    } else if d == 7 {
        "7"
    } else if d == 8 {
        "8"
    } else {
        "9"
    }
}

/// Appends the decimal digits of `n`.
pub fn push_decimal(s: &mut String, n: u64)
    ensures
        final(s)@ == old(s)@ + decimal(n as nat),
    decreases n,
{
    if n >= 10 {
        push_decimal(s, n / 10);
    }
    s.append(digit_str(n % 10));
    assert(final(s)@ =~= old(s)@ + decimal(n as nat)) by {
        if n >= 10 {
            assert(decimal(n as nat) == decimal((n / 10) as nat) + seq![digit_char((n % 10) as nat)]);
        }
    }
}

impl TransferStats {
    /// `raw * (1 - loss) * (1 - redundancy)`, where redundancy is the share
    /// of redundant chunks among all chunks (ratios in parts per million).
    pub fn calculate_real_throughput(&self, raw_bandwidth: u64) -> (r: u64)
        ensures
            r == ({
                let loss = self.loss_spec();
                let red = if self.total_chunks > 0 && self.redundant_chunks <= self.total_chunks {
                    ppm_of(self.redundant_chunks as int, self.total_chunks as int)
                } else {
                    0
                };
                (raw_bandwidth as int * (1_000_000 - loss) / 1_000_000 * (1_000_000 - red)
                    / 1_000_000) as u64
            }),
    {
        let loss = self.overall_loss_rate();
        let red: u32 = if self.total_chunks > 0 && self.redundant_chunks <= self.total_chunks {
            share_ppm(self.redundant_chunks, self.total_chunks)
        } else {
            0
        };
        assert(raw_bandwidth as u128 * (1_000_000 - loss) as u128 <= u64::MAX as u128 * 1_000_000)
            by (nonlinear_arith)
            requires
                loss <= 1_000_000,
        ;
        let a = raw_bandwidth as u128 * (1_000_000 - loss) as u128 / 1_000_000;
        assert(a <= raw_bandwidth) by (nonlinear_arith)
            requires
                a == raw_bandwidth as int * (1_000_000 - loss) as int / 1_000_000,
                loss <= 1_000_000,
        ;
        assert(a * (1_000_000 - red) as u128 <= u64::MAX as u128 * 1_000_000) by (nonlinear_arith)
            requires
                red <= 1_000_000,
                a <= u64::MAX,
        ;
        let b = a * (1_000_000 - red) as u128 / 1_000_000;
        assert(b <= a) by (nonlinear_arith)
            requires
                b == a as int * (1_000_000 - red) as int / 1_000_000,
                red <= 1_000_000,
        ;
        b as u64
    }

    /// Each link's share of the summed throughput, in parts per million;
    /// equal shares when nothing has been measured.
    pub fn nic_ratios(&self) -> (r: Vec<u32>)
        ensures
            r@.len() == self.nic_stats@.len(),
            forall|k: int|
                0 <= k < r@.len() ==> #[trigger] r@[k] as int == if sum_throughput(self.nic_stats@)
                    == 0 {
                    1_000_000int / self.nic_stats@.len() as int
                } else {
                    throughput_of(self.nic_stats@[k]) as int * 1_000_000 / sum_throughput(
                        self.nic_stats@,
                    ) as int
                },
    {
        let n = self.nic_stats.len();
        let mut total: u128 = 0;
        let mut tps: Vec<u64> = Vec::new();
        let mut i: usize = 0;
        while i < n
            invariant
                i <= n,
                n == self.nic_stats@.len(),
                tps@.len() == i,
                total <= i * u64::MAX,
                total == sum_u64(tps@),
                total == sum_throughput(self.nic_stats@.subrange(0, i as int)),
                forall|q: int| 0 <= q < i ==> #[trigger] tps@[q] == throughput_of(self.nic_stats@[q]),
            decreases n - i,
        {
            let t = self.nic_stats[i].throughput();
            let ghost before = tps@;
            tps.push(t);
            assert(tps@.drop_last() =~= before);
            assert(self.nic_stats@.subrange(0, i + 1).drop_last() =~= self.nic_stats@.subrange(
                0,
                i as int,
            ));
            assert(total + t <= (i + 1) * u64::MAX <= u128::MAX) by (nonlinear_arith)
                requires
                    total <= i * u64::MAX,
                    t <= u64::MAX,
                    i < usize::MAX,
                    usize::MAX <= u64::MAX,
            ;
            total = total + t as u128;
            i = i + 1;
        }
        assert(self.nic_stats@.subrange(0, n as int) =~= self.nic_stats@);
        let mut r: Vec<u32> = Vec::new();
        let mut k: usize = 0;
        while k < n
            invariant
                k <= n,
                n == tps@.len(),
                n == self.nic_stats@.len(),
                r@.len() == k,
                total == sum_u64(tps@),
                total == sum_throughput(self.nic_stats@),
                forall|q: int| 0 <= q < n ==> #[trigger] tps@[q] == throughput_of(self.nic_stats@[q]),
                forall|q: int|
                    0 <= q < k ==> #[trigger] r@[q] as int == if total == 0 {
                        1_000_000int / n as int
                    } else {
                        tps@[q] as int * 1_000_000 / total as int
                    },
            decreases n - k,
        {
            if total == 0 {
                r.push((1_000_000 / n) as u32);
            } else {
                proof {
                    lemma_sum_u64_member(tps@, k as int);
                }
                let v = tps[k] as u128 * 1_000_000 / total;
                assert(v <= 1_000_000) by (nonlinear_arith)
                    requires
                        v == tps@[k as int] as int * 1_000_000 / total as int,
                        tps@[k as int] <= total,
                        total > 0,
                ;
                r.push(v as u32);
            }
            k = k + 1;
        }
        r
    }

    /// One line of totals: elapsed milliseconds, segments, bytes, throughput
    /// in bytes per second, loss in parts per million, and NACKs.
    pub fn summary(&self, now_us: u64) -> (r: String)
        ensures
            r@ == "Elapsed: "@ + decimal((self.elapsed_spec(now_us) / 1000) as nat) + " ms | Segments: "@
                + decimal(self.completed_segments as nat) + "/"@ + decimal(
                self.total_segments as nat,
            ) + " | Bytes: "@ + decimal(self.total_bytes as nat) + " | Throughput: "@ + decimal(
                self.throughput_spec(now_us) as nat,
            ) + " B/s | Loss: "@ + decimal(self.loss_spec() as nat) + " ppm | NACKs: "@
                + decimal(self.total_nacks as nat),
    {
        let mut s = String::new();
        s.append("Elapsed: ");
        push_decimal(&mut s, self.elapsed(now_us) / 1000);
        s.append(" ms | Segments: ");
        push_decimal(&mut s, self.completed_segments);
        s.append("/");
        push_decimal(&mut s, self.total_segments);
        s.append(" | Bytes: ");
        push_decimal(&mut s, self.total_bytes);
        s.append(" | Throughput: ");
        push_decimal(&mut s, self.overall_throughput(now_us));
        s.append(" B/s | Loss: ");
        push_decimal(&mut s, self.overall_loss_rate() as u64);
        s.append(" ppm | NACKs: ");
        push_decimal(&mut s, self.total_nacks);
        s
    }
}

impl Default for TransferStats {
    /// One link, a window of 100 arrivals, started at time 0.
    fn default() -> (r: TransferStats)
        ensures
            r.nic_stats@.len() == 1,
            r.start_time_us == 0,
            r.total_chunks == 0,
            r.total_bytes == 0,
    {
        TransferStats::new(1, 100, 0)
    }
}

proof fn lemma_sum_u64_member(s: Seq<u64>, k: int)
    requires
        0 <= k < s.len(),
    ensures
        s[k] <= sum_u64(s),
    decreases s.len(),
{
    if k < s.len() - 1 {
        lemma_sum_u64_member(s.drop_last(), k);
    }
}

} // verus!
