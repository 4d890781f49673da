//! Protocol tunables. Ratios are in parts per million.
use crate::{DEFAULT_CHUNK_SIZE, DEFAULT_SEGMENT_SIZE};
use vstd::prelude::*;

verus! {

/// One whole, in parts per million.
pub const PPM: u32 = 1_000_000;

#[derive(Debug, Clone, Copy)]
pub struct Config {
    pub chunk_size: usize,
    pub segment_size: usize,
    /// Redundancy sent with every segment, e.g. 200_000 for 20% extra chunks.
    pub base_redundancy_ratio: u32,
    pub max_redundancy_ratio: u32,
    pub min_redundancy_ratio: u32,
    pub nack_timeout_ms: u64,
    pub segment_timeout_ms: u64,
    /// Gap between chunks in microseconds; 0 sends at full speed.
    pub chunk_interval_us: u64,
    /// Arrivals kept per link for rate estimates.
    pub stats_window_size: usize,
    pub ratio_adjust_interval_ms: u64,
    pub max_concurrent_segments: usize,
    pub recv_buffer_size: usize,
    pub send_buffer_size: usize,
    pub encryption_enabled: bool,
    /// Worker count; 0 uses one per CPU.
    pub parallel_workers: usize,
}

/// `clamp(base + 2 * loss, min, max)`.
pub open spec fn redundancy_for(base: u32, min: u32, max: u32, loss_ppm: u32) -> u32 {
    let r = base as int + 2 * loss_ppm as int;
    if r < min {
        min
    } else if r > max {
        max
    } else {
        r as u32
    }
}

impl Config {
    /// Redundancy ratios are ordered.
    pub open spec fn wf(&self) -> bool {
        self.min_redundancy_ratio <= self.max_redundancy_ratio
    }

    pub fn default_config() -> (r: Config)
        ensures
            r.wf(),
            r.chunk_size == DEFAULT_CHUNK_SIZE,
            r.segment_size == DEFAULT_SEGMENT_SIZE,
            r.base_redundancy_ratio == 150_000,
            r.max_redundancy_ratio == 700_000,
            r.min_redundancy_ratio == 50_000,
            r.nack_timeout_ms == 50,
            r.segment_timeout_ms == 5000,
            r.chunk_interval_us == 0,
            r.stats_window_size == 100,
            r.ratio_adjust_interval_ms == 100,
            r.max_concurrent_segments == 16,
            r.recv_buffer_size == 2 * 1024 * 1024,
            r.send_buffer_size == 2 * 1024 * 1024,
            !r.encryption_enabled,
            r.parallel_workers == 0,
    {
        Config {
            chunk_size: DEFAULT_CHUNK_SIZE,
            segment_size: DEFAULT_SEGMENT_SIZE,
            base_redundancy_ratio: 150_000,
            max_redundancy_ratio: 700_000,
            min_redundancy_ratio: 50_000,
            nack_timeout_ms: 50,
            segment_timeout_ms: 5000,
            chunk_interval_us: 0,
            stats_window_size: 100,
            ratio_adjust_interval_ms: 100,
            max_concurrent_segments: 16,
            recv_buffer_size: 2 * 1024 * 1024,
            send_buffer_size: 2 * 1024 * 1024,
            encryption_enabled: false,
            parallel_workers: 0,
        }
    }

    /// Same as the default configuration.
    pub fn new() -> (r: Config)
        ensures
            r == Config::spec_default(),
            r.wf(),
    {
        Config::default_config()
    }

    pub open spec fn spec_default() -> Config {
        Config {
            chunk_size: DEFAULT_CHUNK_SIZE,
            segment_size: DEFAULT_SEGMENT_SIZE,
            base_redundancy_ratio: 150_000,
            max_redundancy_ratio: 700_000,
            min_redundancy_ratio: 50_000,
            nack_timeout_ms: 50,
            segment_timeout_ms: 5000,
            chunk_interval_us: 0,
            stats_window_size: 100,
            ratio_adjust_interval_ms: 100,
            max_concurrent_segments: 16,
            recv_buffer_size: 2097152,
            send_buffer_size: 2097152,
            encryption_enabled: false,
            parallel_workers: 0,
        }
    }

    /// `ceil(segment_size / chunk_size)`.
    pub fn chunks_per_segment(&self) -> (r: usize)
        requires
            self.chunk_size > 0,
        ensures
            r == (self.segment_size + self.chunk_size - 1) / self.chunk_size as int,
    {
        let q = self.segment_size / self.chunk_size;
        if self.segment_size % self.chunk_size != 0 {
            assert(q + 1 == (self.segment_size + self.chunk_size - 1) / self.chunk_size as int
                && q < usize::MAX) by (nonlinear_arith)
                requires
                    self.chunk_size > 0,
                    q == self.segment_size / self.chunk_size,
                    self.segment_size % self.chunk_size != 0,
            ;
            q + 1
        } else {
            assert(q == (self.segment_size + self.chunk_size - 1) / self.chunk_size as int)
                by (nonlinear_arith)
                requires
                    self.chunk_size > 0,
                    q == self.segment_size / self.chunk_size,
                    self.segment_size % self.chunk_size == 0,
            ;
            q
        }
    }

    /// Redundancy for a loss rate: the base plus twice the loss, clamped to
    /// the configured bounds.
    pub fn calculate_redundancy(&self, loss_rate: u32) -> (r: u32)
        requires
            self.wf(),
        ensures
            r == redundancy_for(
                self.base_redundancy_ratio,
                self.min_redundancy_ratio,
                self.max_redundancy_ratio,
                loss_rate,
            ),
            self.min_redundancy_ratio <= r <= self.max_redundancy_ratio,
    {
        let r = self.base_redundancy_ratio as u64 + 2 * loss_rate as u64;
        if r < self.min_redundancy_ratio as u64 {
            self.min_redundancy_ratio
        } else if r > self.max_redundancy_ratio as u64 {
            self.max_redundancy_ratio
        } else {
            r as u32
        }
    }

    /// Settings for constrained devices.
    pub fn low_spec() -> (r: Config)
        ensures
            r.wf(),
            r.chunk_size == 1100,
            r.segment_size == 32768,
            r.base_redundancy_ratio == 200_000,
            r.max_redundancy_ratio == 600_000,
            r.min_redundancy_ratio == 100_000,
            r.parallel_workers == 2,
    {
        Config {
            chunk_size: 1100,
            segment_size: 32768,
            base_redundancy_ratio: 200_000,
            max_redundancy_ratio: 600_000,
            min_redundancy_ratio: 100_000,
            nack_timeout_ms: 100,
            segment_timeout_ms: 10000,
            chunk_interval_us: 100,
            stats_window_size: 50,
            ratio_adjust_interval_ms: 200,
            max_concurrent_segments: 4,
            recv_buffer_size: 512 * 1024,
            send_buffer_size: 512 * 1024,
            encryption_enabled: false,
            parallel_workers: 2,
        }
    }

    /// Settings for fast hosts and links.
    pub fn high_performance() -> (r: Config)
        ensures
            r.wf(),
            r.chunk_size == 1400,
            r.segment_size == 131072,
            r.base_redundancy_ratio == 100_000,
            r.max_redundancy_ratio == 500_000,
            r.min_redundancy_ratio == 50_000,
            r.parallel_workers == 0,
    {
        Config {
            chunk_size: 1400,
            segment_size: 131072,
            base_redundancy_ratio: 100_000,
            max_redundancy_ratio: 500_000,
            min_redundancy_ratio: 50_000,
            nack_timeout_ms: 30,
            segment_timeout_ms: 3000,
            chunk_interval_us: 0,
            stats_window_size: 200,
            ratio_adjust_interval_ms: 50,
            max_concurrent_segments: 32,
            recv_buffer_size: 8 * 1024 * 1024,
            send_buffer_size: 8 * 1024 * 1024,
            encryption_enabled: false,
            parallel_workers: 0,
        }
    }

    /// Settings for lossy links: smaller chunks, more redundancy.
    pub fn unstable_network() -> (r: Config)
        ensures
            r.wf(),
            r.chunk_size == 1000,
            r.segment_size == 32768,
            r.base_redundancy_ratio == 350_000,
            r.max_redundancy_ratio == 800_000,
            r.min_redundancy_ratio == 200_000,
            r.parallel_workers == 4,
    {
        Config {
            chunk_size: 1000,
            segment_size: 32768,
            base_redundancy_ratio: 350_000,
            max_redundancy_ratio: 800_000,
            min_redundancy_ratio: 200_000,
            nack_timeout_ms: 200,
            segment_timeout_ms: 15000,
            chunk_interval_us: 50,
            stats_window_size: 30,
            ratio_adjust_interval_ms: 150,
            max_concurrent_segments: 8,
            recv_buffer_size: 1024 * 1024,
            send_buffer_size: 1024 * 1024,
            encryption_enabled: false,
            parallel_workers: 4,
        }
    }
}

impl Default for Config {
    fn default() -> (r: Config)
        ensures
            r == Config::spec_default(),
    {
        Config::default_config()
    }
}

} // verus!
