//! Counters of an incremental pass.

use vstd::prelude::*;
use std::time::Instant;
use crate::clock::{instant_elapsed, instant_now, nanos_of};

verus! {

/// Counters of one incremental pass.
#[derive(Debug, Clone)]
pub struct PerfMetrics {
    /// Nodes recomputed.
    pub nodes_recomputed: u32,
    /// Nodes reused from the cache.
    pub nodes_reused: u32,
    /// Deepest traversal.
    pub max_depth: u16,
    /// Longest dirty chain.
    pub max_dirty_chain: u16,
    /// Time of the pass in nanoseconds.
    pub latency_ns: u64,
    /// Nodes skipped by a short-circuit.
    pub nodes_skipped: u32,
    /// Memory change of the pass, where measured.
    pub memory_delta_bytes: Option<i64>,
    /// When the running timer started.
    pub start_time: Option<Instant>,
}

/// The counters are all zero and nothing is measured.
pub open spec fn is_zeroed(m: PerfMetrics) -> bool {
    &&& m.nodes_recomputed == 0
    &&& m.nodes_reused == 0
    &&& m.max_depth == 0
    &&& m.max_dirty_chain == 0
    &&& m.latency_ns == 0
    &&& m.nodes_skipped == 0
    &&& m.memory_delta_bytes is None
}

/// The counters of two records agree.
pub open spec fn same_counters(a: PerfMetrics, b: PerfMetrics) -> bool {
    &&& a.nodes_recomputed == b.nodes_recomputed
    &&& a.nodes_reused == b.nodes_reused
    &&& a.max_depth == b.max_depth
    &&& a.max_dirty_chain == b.max_dirty_chain
    &&& a.latency_ns == b.latency_ns
    &&& a.nodes_skipped == b.nodes_skipped
    &&& a.memory_delta_bytes == b.memory_delta_bytes
}

impl Default for PerfMetrics {
    fn default() -> (r: Self)
        ensures
            is_zeroed(r),
            !r.spec_timing(),
    {
        PerfMetrics {
            nodes_recomputed: 0,
            nodes_reused: 0,
            max_depth: 0,
            max_dirty_chain: 0,
            latency_ns: 0,
            nodes_skipped: 0,
            memory_delta_bytes: None,
            start_time: None,
        }
    }
}

impl PerfMetrics {
    /// Whether a timer is running.
    pub closed spec fn spec_timing(&self) -> bool {
        self.start_time is Some
    }

    pub fn new() -> (r: Self)
        ensures
            is_zeroed(r),
            !r.spec_timing(),
    {
        Self::default()
    }

    /// Starts the timer.
    pub fn start_timer(&mut self)
        ensures
            same_counters(*final(self), *old(self)),
            final(self).spec_timing(),
    {
        self.start_time = Some(instant_now());
    }

    /// Records the time since the timer started, when it runs.
    pub fn stop_timer(&mut self)
        ensures
            final(self).nodes_recomputed == old(self).nodes_recomputed,
            final(self).nodes_reused == old(self).nodes_reused,
            final(self).max_depth == old(self).max_depth,
            final(self).max_dirty_chain == old(self).max_dirty_chain,
            final(self).nodes_skipped == old(self).nodes_skipped,
            final(self).memory_delta_bytes == old(self).memory_delta_bytes,
            !old(self).spec_timing() ==> final(self).latency_ns == old(self).latency_ns,
            final(self).spec_timing() == old(self).spec_timing(),
    {
        match &self.start_time {
            Some(start) => {
                let ns = nanos_of(&instant_elapsed(start)) as u64;
                self.latency_ns = ns;
            },
            None => {},
        }
    }

    pub fn record_recompute(&mut self)
        requires
            old(self).nodes_recomputed < u32::MAX,
        ensures
            *final(self) == (PerfMetrics { nodes_recomputed: (old(self).nodes_recomputed + 1) as u32, ..*old(self) }),
    {
        self.nodes_recomputed = self.nodes_recomputed + 1;
    }

    pub fn record_reuse(&mut self)
        requires
            old(self).nodes_reused < u32::MAX,
        ensures
            *final(self) == (PerfMetrics { nodes_reused: (old(self).nodes_reused + 1) as u32, ..*old(self) }),
    {
        self.nodes_reused = self.nodes_reused + 1;
    }

    pub fn record_skip(&mut self)
        requires
            old(self).nodes_skipped < u32::MAX,
        ensures
            *final(self) == (PerfMetrics { nodes_skipped: (old(self).nodes_skipped + 1) as u32, ..*old(self) }),
    {
        self.nodes_skipped = self.nodes_skipped + 1;
    }

    /// Raises the deepest traversal to `depth`.
    pub fn update_depth(&mut self, depth: u16)
        ensures
            *final(self) == (PerfMetrics {
                max_depth: if depth > old(self).max_depth { depth } else { old(self).max_depth },
                ..*old(self)
            }),
    {
        if depth > self.max_depth {
            self.max_depth = depth;
        }
    }

    /// Raises the longest dirty chain to `chain`.
    pub fn update_dirty_chain(&mut self, chain: u16)
        ensures
            *final(self) == (PerfMetrics {
                max_dirty_chain: if chain > old(self).max_dirty_chain { chain } else { old(self).max_dirty_chain },
                ..*old(self)
            }),
    {
        if chain > self.max_dirty_chain {
            self.max_dirty_chain = chain;
        }
    }

    /// Resets every counter, keeping a running timer.
    pub fn bump(&mut self)
        ensures
            is_zeroed(*final(self)),
            final(self).spec_timing() == old(self).spec_timing(),
    {
        let start = self.start_time;
        *self = Self::default();
        self.start_time = start;
    }
}

} // verus!
