//! Counters describing the work of the filter-engine actor.
//!
//! The actor owns one `MetricsCollector` and updates it while it serves
//! requests; the admin surface reads snapshots of it. All durations are
//! kept in nanoseconds; the snapshot types convert to milliseconds.

use vstd::prelude::*;

verus! {

/// Counters the filter-engine actor maintains about its own work.
///
/// Request counts and durations saturate at `u64::MAX` instead of
/// overflowing; they are advisory values, not accounting ledgers.
pub struct MetricsCollector {
    /// Network match queries served.
    pub network_requests: u64,
    /// Cosmetic match queries served.
    pub cosmetic_requests: u64,
    /// Network queries whose result was a match.
    pub blocked_requests: u64,
    /// Smoothed request rate, stored by the sampling loop.
    pub requests_per_second: u64,
    /// Total nanoseconds spent serving network queries.
    pub network_processing_time: u64,
    /// Total nanoseconds spent serving cosmetic queries.
    pub cosmetic_processing_time: u64,
    /// Total nanoseconds spent replacing the engine.
    pub engine_update_time: u64,
    /// Nanoseconds the most recent engine replacement took.
    pub last_update_time: u64,
    /// Size of the current rule text in whole kilobytes.
    pub active_filters: u64,
    /// Engine replacements performed.
    pub filter_updates: u64,
    /// Largest process memory sample seen, in kilobytes.
    pub peak_memory_usage: u64,
    /// Most recent process memory sample, in kilobytes.
    pub current_memory_usage: u64,
    /// Network queries whose URL could not be parsed.
    pub failed_requests: u64,
    /// Engine replacements that failed.
    pub failed_updates: u64,
}

/// Snapshot of the filter-related counters.
pub struct FilterMetrics {
    pub active_filters: u64,
    pub filter_updates: u64,
    pub failed_updates: u64,
    pub last_update_time_ms: u64,
}

/// Snapshot of the memory-related counters, in kilobytes.
pub struct MemoryMetrics {
    pub current_usage_kb: u64,
    pub peak_usage_kb: u64,
    pub filter_memory_kb: u64,
}

impl MetricsCollector {
    /// True when every counter is zero.
    pub open spec fn is_zeroed(self) -> bool {
        &&& self.network_requests == 0
        &&& self.cosmetic_requests == 0
        &&& self.blocked_requests == 0
        &&& self.requests_per_second == 0
        &&& self.network_processing_time == 0
        &&& self.cosmetic_processing_time == 0
        &&& self.engine_update_time == 0
        &&& self.last_update_time == 0
        &&& self.active_filters == 0
        &&& self.filter_updates == 0
        &&& self.peak_memory_usage == 0
        &&& self.current_memory_usage == 0
        &&& self.failed_requests == 0
        &&& self.failed_updates == 0
    }

    /// Fresh collector with every counter at zero.
    pub fn new() -> (r: Self)
        ensures
            r.is_zeroed(),
    {
        MetricsCollector {
            network_requests: 0,
            cosmetic_requests: 0,
            blocked_requests: 0,
            requests_per_second: 0,
            network_processing_time: 0,
            cosmetic_processing_time: 0,
            engine_update_time: 0,
            last_update_time: 0,
            active_filters: 0,
            filter_updates: 0,
            peak_memory_usage: 0,
            current_memory_usage: 0,
            failed_requests: 0,
            failed_updates: 0,
        }
    }

    /// Filter counters as reported to the admin surface; the last update
    /// duration is converted from nanoseconds to whole milliseconds.
    pub fn get_filter_metrics(&self) -> (r: FilterMetrics)
        ensures
            r.active_filters == self.active_filters,
            r.filter_updates == self.filter_updates,
            r.failed_updates == self.failed_updates,
            r.last_update_time_ms == self.last_update_time / 1000000,
    {
        FilterMetrics {
            active_filters: self.active_filters,
            filter_updates: self.filter_updates,
            failed_updates: self.failed_updates,
            last_update_time_ms: self.last_update_time / 1000000,
        }
    }

    /// Memory counters as reported to the admin surface. The rule text
    /// size stands in for the memory the compiled filters take.
    pub fn get_memory_metrics(&self) -> (r: MemoryMetrics)
        ensures
            r.current_usage_kb == self.current_memory_usage,
            r.peak_usage_kb == self.peak_memory_usage,
            r.filter_memory_kb == self.active_filters,
    {
        MemoryMetrics {
            current_usage_kb: self.current_memory_usage,
            peak_usage_kb: self.peak_memory_usage,
            filter_memory_kb: self.active_filters,
        }
    }

    /// Records one memory sample: the current usage is replaced and the
    /// peak keeps the largest sample seen so far.
    pub fn record_memory_sample(&mut self, used_kb: u64)
        ensures
            *final(self) == (MetricsCollector {
                current_memory_usage: used_kb,
                peak_memory_usage: if used_kb > old(self).peak_memory_usage {
                    used_kb
                } else {
                    old(self).peak_memory_usage
                },
                ..*old(self)
            }),
    {
        self.current_memory_usage = used_kb;
        if used_kb > self.peak_memory_usage {
            self.peak_memory_usage = used_kb;
        }
    }

    /// Stores the smoothed request rate computed by the sampling loop.
    pub fn store_request_rate(&mut self, rate: u64)
        ensures
            *final(self) == (MetricsCollector { requests_per_second: rate, ..*old(self) }),
    {
        self.requests_per_second = rate;
    }
}

/// Whether a fresh metrics payload differs from the one last sent;
/// the pushed feed suppresses byte-identical retransmissions.
pub fn payload_changed(previous: &String, current: &String) -> (r: bool)
    ensures
        r == (previous@ != current@),
{
    !(*previous == *current)
}

impl Default for MetricsCollector {
    /// Same as `MetricsCollector::new`.
    fn default() -> (r: Self)
        ensures
            r.is_zeroed(),
    {
        MetricsCollector::new()
    }
}

} // verus!
