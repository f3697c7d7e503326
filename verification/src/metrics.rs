//! Reality metrics: lifetimes of committed realities and per-epoch
//! counters accumulated across epochs.

use vstd::prelude::*;
use std::time::{Duration, SystemTime};
use crate::base::EpochId;
use crate::clock::{dur_nanos, duration_from_secs, duration_since, elapsed_between, nanos_of, secs_duration};

verus! {

/// Inserts `x` after every key at or below it.
pub open spec fn insert_key(s: Seq<u128>, x: u128) -> Seq<u128>
    decreases s.len(),
{
    if s.len() == 0 || !(x < s.last()) { s.push(x) } else { insert_key(s.drop_last(), x).push(s.last()) }
}

/// The keys in ascending order.
pub open spec fn sort_keys(v: Seq<u128>) -> Seq<u128>
    decreases v.len(),
{
    if v.len() == 0 { v } else { insert_key(sort_keys(v.drop_last()), v.last()) }
}

/// The keys of pairs.
pub open spec fn pair_keys(s: Seq<(u128, usize)>) -> Seq<u128> {
    s.map_values(|p: (u128, usize)| p.0)
}

proof fn lemma_insert_pair(s: Seq<(u128, usize)>, x: (u128, usize), k: int)
    requires
        0 <= k <= s.len(),
        k == 0 || !(x.0 < s[k - 1].0),
        forall|j: int| k <= j < s.len() ==> x.0 < (#[trigger] s[j]).0,
    ensures
        insert_key(pair_keys(s), x.0) == pair_keys(s.take(k).push(x) + s.skip(k)),
    decreases s.len(),
{
    let ks = pair_keys(s);
    if s.len() == 0 {
        assert(pair_keys(s.take(k).push(x) + s.skip(k)) =~= seq![x.0]);
    } else if k == s.len() {
        assert(s.take(k).push(x) + s.skip(k) =~= s.push(x));
        assert(pair_keys(s.push(x)) =~= ks.push(x.0));
    } else {
        let d = s.drop_last();
        assert forall|j: int| k <= j < d.len() implies x.0 < (#[trigger] d[j]).0 by {
            assert(d[j] == s[j]);
        }
        if k > 0 {
            assert(d[k - 1] == s[k - 1]);
        }
        lemma_insert_pair(d, x, k);
        assert(pair_keys(d) =~= ks.drop_last());
        assert(ks.last() == s.last().0);
        assert(d.take(k) =~= s.take(k));
        assert(s.take(k).push(x) + s.skip(k) =~= (d.take(k).push(x) + d.skip(k)).push(s.last()));
        assert(pair_keys((d.take(k).push(x) + d.skip(k)).push(s.last()))
            =~= pair_keys(d.take(k).push(x) + d.skip(k)).push(s.last().0));
    }
}

/// The position of an element whose key sits at the middle (index
/// `len / 2`) of the keys in ascending order.
pub fn median_index(keys: &[u128]) -> (r: usize)
    requires
        keys@.len() > 0,
    ensures
        r < keys@.len(),
        keys@[r as int] == sort_keys(keys@)[(keys@.len() / 2) as int],
{
    let mut sorted: Vec<(u128, usize)> = Vec::new();
    let mut i: usize = 0;
    while i < keys.len()
        invariant
            i <= keys@.len(),
            pair_keys(sorted@) == sort_keys(keys@.take(i as int)),
            forall|j: int| 0 <= j < sorted@.len() ==> (#[trigger] sorted@[j]).1 < keys@.len()
                && keys@[sorted@[j].1 as int] == sorted@[j].0,
        decreases keys@.len() - i,
    {
        let x = (keys[i], i);
        let ghost s = sorted@;
        let mut k: usize = sorted.len();
        while k > 0 && x.0 < sorted[k - 1].0
            invariant
                k <= sorted@.len(),
                s == sorted@,
                forall|j: int| k <= j < s.len() ==> x.0 < (#[trigger] s[j]).0,
            decreases k,
        {
            k = k - 1;
        }
        proof {
            lemma_insert_pair(s, x, k as int);
            assert(keys@.take(i + 1).drop_last() =~= keys@.take(i as int));
        }
        sorted.insert(k, x);
        assert(sorted@ =~= s.take(k as int).push(x) + s.skip(k as int));
        assert forall|j: int| 0 <= j < sorted@.len() implies (#[trigger] sorted@[j]).1 < keys@.len()
            && keys@[sorted@[j].1 as int] == sorted@[j].0 by {
            if j < k {
                assert(sorted@[j] == s[j]);
            } else if j > k {
                assert(sorted@[j] == s[j - 1]);
            }
        }
        i = i + 1;
    }
    assert(keys@.take(keys@.len() as int) =~= keys@);
    proof { lemma_sort_keys_len(keys@); }
    let mid = keys.len() / 2;
    assert(pair_keys(sorted@)[mid as int] == sorted@[mid as int].0);
    sorted[mid].1
}

proof fn lemma_insert_key_len(s: Seq<u128>, x: u128)
    ensures
        insert_key(s, x).len() == s.len() + 1,
    decreases s.len(),
{
    if s.len() > 0 && x < s.last() {
        lemma_insert_key_len(s.drop_last(), x);
    }
}

proof fn lemma_sort_keys_len(v: Seq<u128>)
    ensures
        sort_keys(v).len() == v.len(),
    decreases v.len(),
{
    if v.len() > 0 {
        lemma_sort_keys_len(v.drop_last());
        lemma_insert_key_len(sort_keys(v.drop_last()), v.last());
    }
}

/// When a committed reality was invalidated, if it was, and how often it
/// was read.
#[derive(Debug)]
pub struct HalfLifeObservation {
    pub reality_id: String,
    pub committed_at: SystemTime,
    pub invalidated_at: Option<SystemTime>,
    pub access_count: u64,
}

impl Clone for HalfLifeObservation {
    fn clone(&self) -> (r: Self)
        ensures
            r == *self,
    {
        HalfLifeObservation {
            reality_id: self.reality_id.clone(),
            committed_at: self.committed_at,
            invalidated_at: self.invalidated_at,
            access_count: self.access_count,
        }
    }
}

/// When an observation's lifetime ends: at its invalidation, or at its
/// commit while it is still valid.
pub open spec fn observation_end(o: HalfLifeObservation) -> SystemTime {
    match o.invalidated_at {
        Some(t) => t,
        None => o.committed_at,
    }
}

/// The lifetimes of the observations, in order: from each commit to its
/// end, leaving out those that would run backwards.
pub open spec fn lifetimes(obs: Seq<HalfLifeObservation>) -> Seq<Duration>
    decreases obs.len(),
{
    if obs.len() == 0 {
        Seq::empty()
    } else {
        let prev = lifetimes(obs.drop_last());
        match duration_since(observation_end(obs.last()), obs.last().committed_at) {
            Some(d) => prev.push(d),
            None => prev,
        }
    }
}

/// The nanoseconds of each duration.
pub open spec fn nanos_seq(ds: Seq<Duration>) -> Seq<u128> {
    ds.map_values(|d: Duration| dur_nanos(d))
}

/// The median lifetime of the observations: each lifetime runs from the
/// commit to the invalidation (zero while valid), lifetimes that would run
/// backwards are left out, and of the rest, in ascending order, the one at
/// index `len / 2` is the median; with none, zero seconds.
pub fn compute_half_life(observations: &[HalfLifeObservation]) -> (r: Duration)
    ensures
        ({
            let ls = lifetimes(observations@);
            &&& ls.len() == 0 ==> r == secs_duration(0)
            &&& ls.len() > 0 ==> ls.contains(r)
                && dur_nanos(r) == sort_keys(nanos_seq(ls))[(ls.len() / 2) as int]
        }),
{
    if observations.len() == 0 {
        return duration_from_secs(0);
    }
    let mut lifetimes_v: Vec<Duration> = Vec::new();
    let mut keys: Vec<u128> = Vec::new();
    let mut i: usize = 0;
    while i < observations.len()
        invariant
            i <= observations@.len(),
            lifetimes_v@ == lifetimes(observations@.take(i as int)),
            keys@ == nanos_seq(lifetimes_v@),
        decreases observations@.len() - i,
    {
        let o = &observations[i];
        let end = match o.invalidated_at {
            Some(t) => t,
            None => o.committed_at,
        };
        assert(observations@.take(i + 1).drop_last() =~= observations@.take(i as int));
        assert(observations@.take(i + 1).last() == observations@[i as int]);
        match elapsed_between(&end, &o.committed_at) {
            Some(d) => {
                keys.push(nanos_of(&d));
                lifetimes_v.push(d);
                assert(keys@ =~= nanos_seq(lifetimes_v@));
            },
            None => {},
        }
        i = i + 1;
    }
    assert(observations@.take(observations@.len() as int) =~= observations@);
    if keys.len() == 0 {
        return duration_from_secs(0);
    }
    let m = median_index(keys.as_slice());
    lifetimes_v[m]
}

/// The counters of one epoch.
#[derive(Debug, Clone, Copy)]
pub struct MetricsSnapshot {
    pub epoch: EpochId,
    pub inference_count_vantage: u64,
    pub inference_count_baseline: u64,
    pub state_reads: u64,
    pub reality_commits: u64,
    pub total_tokens_vantage: u64,
    pub total_tokens_baseline: u64,
    pub reality_bytes_stored: u64,
}

impl MetricsSnapshot {
    /// The tokens the epoch saved: baseline tokens minus those used, not
    /// below zero.
    pub fn tokens_saved(&self) -> (r: u64)
        ensures
            r == if self.total_tokens_baseline >= self.total_tokens_vantage {
                (self.total_tokens_baseline - self.total_tokens_vantage) as u64
            } else {
                0
            },
    {
        self.total_tokens_baseline.saturating_sub(self.total_tokens_vantage)
    }
}

/// The sum of a counter over snapshots.
pub open spec fn sum_of(s: Seq<MetricsSnapshot>, f: spec_fn(MetricsSnapshot) -> nat) -> nat
    decreases s.len(),
{
    if s.len() == 0 { 0 } else { sum_of(s.drop_last(), f) + f(s.last()) }
}

/// Baseline tokens.
pub open spec fn baseline_tokens(m: MetricsSnapshot) -> nat {
    m.total_tokens_baseline as nat
}

/// Tokens used.
pub open spec fn used_tokens(m: MetricsSnapshot) -> nat {
    m.total_tokens_vantage as nat
}

/// Inferences with the runtime.
pub open spec fn vantage_inferences(m: MetricsSnapshot) -> nat {
    m.inference_count_vantage as nat
}

/// Inferences without it.
pub open spec fn baseline_inferences(m: MetricsSnapshot) -> nat {
    m.inference_count_baseline as nat
}

/// State reads.
pub open spec fn state_reads(m: MetricsSnapshot) -> nat {
    m.state_reads as nat
}

/// Reality commits.
pub open spec fn reality_commits(m: MetricsSnapshot) -> nat {
    m.reality_commits as nat
}

/// Tokens saved in one snapshot.
pub open spec fn saved_tokens(m: MetricsSnapshot) -> nat {
    if m.total_tokens_baseline >= m.total_tokens_vantage {
        (m.total_tokens_baseline - m.total_tokens_vantage) as nat
    } else {
        0
    }
}

/// Bytes stored.
pub open spec fn stored_bytes(m: MetricsSnapshot) -> nat {
    m.reality_bytes_stored as nat
}

/// Metrics of every epoch, in order.
#[derive(Debug, Clone)]
pub struct CumulativeMetrics {
    snapshots: Vec<MetricsSnapshot>,
}

impl CumulativeMetrics {
    /// The snapshots, in the order recorded.
    pub closed spec fn spec_snapshots(&self) -> Seq<MetricsSnapshot> {
        self.snapshots@
    }

    pub fn new() -> (r: Self)
        ensures
            r.spec_snapshots() == Seq::<MetricsSnapshot>::empty(),
    {
        Self { snapshots: Vec::new() }
    }

    pub fn record(&mut self, snapshot: MetricsSnapshot)
        ensures
            final(self).spec_snapshots() == old(self).spec_snapshots().push(snapshot),
    {
        self.snapshots.push(snapshot);
    }

    pub fn latest(&self) -> (r: Option<&MetricsSnapshot>)
        ensures
            self.spec_snapshots().len() == 0 ==> r is None,
            self.spec_snapshots().len() > 0 ==> r == Some(&self.spec_snapshots().last()),
    {
        if self.snapshots.len() == 0 {
            None
        } else {
            Some(&self.snapshots[self.snapshots.len() - 1])
        }
    }

    pub fn epoch_count(&self) -> (r: usize)
        ensures
            r == self.spec_snapshots().len(),
    {
        self.snapshots.len()
    }

    /// The snapshots, in the order recorded.
    pub fn snapshots(&self) -> (r: &Vec<MetricsSnapshot>)
        ensures
            r@ == self.spec_snapshots(),
    {
        &self.snapshots
    }

    fn total(&self, which: u8) -> (r: u64)
        requires
            which < 7,
            sum_of(self.spec_snapshots(), counter_of(which)) <= u64::MAX,
        ensures
            r == sum_of(self.spec_snapshots(), counter_of(which)),
    {
        let ghost f = counter_of(which);
        let mut sum: u64 = 0;
        let mut i: usize = 0;
        while i < self.snapshots.len()
            invariant
                i <= self.snapshots@.len(),
                which < 7,
                f == counter_of(which),
                sum_of(self.snapshots@, f) <= u64::MAX,
                sum == sum_of(self.snapshots@.take(i as int), f),
            decreases self.snapshots@.len() - i,
        {
            proof {
                assert(self.snapshots@.take(i + 1).drop_last() =~= self.snapshots@.take(i as int));
                lemma_sum_prefix(self.snapshots@, f, i + 1);
            }
            let s = &self.snapshots[i];
            let v = if which == 0 {
                s.total_tokens_baseline
            } else if which == 1 {
                s.total_tokens_vantage
            } else if which == 2 {
                s.inference_count_vantage
            } else if which == 3 {
                s.inference_count_baseline
            } else if which == 4 {
                s.state_reads
            } else if which == 5 {
                s.reality_commits
            } else {
                s.tokens_saved()
            };
            sum = sum + v;
            i = i + 1;
        }
        assert(self.snapshots@.take(self.snapshots@.len() as int) =~= self.snapshots@);
        sum
    }

    /// The tokens saved over all epochs: summed baseline tokens minus summed
    /// tokens used, not below zero.
    pub fn total_tokens_saved(&self) -> (r: u64)
        requires
            sum_of(self.spec_snapshots(), |m: MetricsSnapshot| baseline_tokens(m)) <= u64::MAX,
            sum_of(self.spec_snapshots(), |m: MetricsSnapshot| used_tokens(m)) <= u64::MAX,
        ensures
            ({
                let b = sum_of(self.spec_snapshots(), |m: MetricsSnapshot| baseline_tokens(m));
                let u = sum_of(self.spec_snapshots(), |m: MetricsSnapshot| used_tokens(m));
                r == if b >= u { (b - u) as u64 } else { 0 }
            }),
    {
        let baseline = self.total(0);
        let used = self.total(1);
        baseline.saturating_sub(used)
    }

    /// The summed inference counts with and without the runtime, from which
    /// the cumulative inference avoidance ratio is computed.
    pub fn inference_totals(&self) -> (r: (u64, u64))
        requires
            sum_of(self.spec_snapshots(), |m: MetricsSnapshot| vantage_inferences(m)) <= u64::MAX,
            sum_of(self.spec_snapshots(), |m: MetricsSnapshot| baseline_inferences(m)) <= u64::MAX,
        ensures
            r.0 == sum_of(self.spec_snapshots(), |m: MetricsSnapshot| vantage_inferences(m)),
            r.1 == sum_of(self.spec_snapshots(), |m: MetricsSnapshot| baseline_inferences(m)),
    {
        (self.total(2), self.total(3))
    }

    /// The summed state reads and reality commits, from which the
    /// cumulative reality reuse factor is computed.
    pub fn reuse_totals(&self) -> (r: (u64, u64))
        requires
            sum_of(self.spec_snapshots(), |m: MetricsSnapshot| state_reads(m)) <= u64::MAX,
            sum_of(self.spec_snapshots(), |m: MetricsSnapshot| reality_commits(m)) <= u64::MAX,
        ensures
            r.0 == sum_of(self.spec_snapshots(), |m: MetricsSnapshot| state_reads(m)),
            r.1 == sum_of(self.spec_snapshots(), |m: MetricsSnapshot| reality_commits(m)),
    {
        (self.total(4), self.total(5))
    }

    /// The summed per-epoch savings and stored bytes, from which the
    /// cumulative reality yield is computed.
    pub fn yield_totals(&self) -> (r: (u64, u64))
        requires
            sum_of(self.spec_snapshots(), |m: MetricsSnapshot| saved_tokens(m)) <= u64::MAX,
            sum_of(self.spec_snapshots(), |m: MetricsSnapshot| stored_bytes(m)) <= u64::MAX,
        ensures
            r.0 == sum_of(self.spec_snapshots(), |m: MetricsSnapshot| saved_tokens(m)),
            r.1 == sum_of(self.spec_snapshots(), |m: MetricsSnapshot| stored_bytes(m)),
    {
        let saved = self.total(6);
        let mut bytes: u64 = 0;
        let mut i: usize = 0;
        let ghost f = |m: MetricsSnapshot| stored_bytes(m);
        while i < self.snapshots.len()
            invariant
                i <= self.snapshots@.len(),
                f == (|m: MetricsSnapshot| stored_bytes(m)),
                sum_of(self.snapshots@, f) <= u64::MAX,
                bytes == sum_of(self.snapshots@.take(i as int), f),
            decreases self.snapshots@.len() - i,
        {
            proof {
                assert(self.snapshots@.take(i + 1).drop_last() =~= self.snapshots@.take(i as int));
                lemma_sum_prefix(self.snapshots@, f, i + 1);
            }
            bytes = bytes + self.snapshots[i].reality_bytes_stored;
            i = i + 1;
        }
        assert(self.snapshots@.take(self.snapshots@.len() as int) =~= self.snapshots@);
        (saved, bytes)
    }
}

/// The counter `which` selects.
pub open spec fn counter_of(which: u8) -> spec_fn(MetricsSnapshot) -> nat {
    if which == 0 {
        |m: MetricsSnapshot| baseline_tokens(m)
    } else if which == 1 {
        |m: MetricsSnapshot| used_tokens(m)
    } else if which == 2 {
        |m: MetricsSnapshot| vantage_inferences(m)
    } else if which == 3 {
        |m: MetricsSnapshot| baseline_inferences(m)
    } else if which == 4 {
        |m: MetricsSnapshot| state_reads(m)
    } else if which == 5 {
        |m: MetricsSnapshot| reality_commits(m)
    } else {
        |m: MetricsSnapshot| saved_tokens(m)
    }
}

proof fn lemma_sum_prefix(s: Seq<MetricsSnapshot>, f: spec_fn(MetricsSnapshot) -> nat, k: int)
    requires
        0 <= k <= s.len(),
    ensures
        sum_of(s.take(k), f) <= sum_of(s, f),
    decreases s.len(),
{
    if k == s.len() {
        assert(s.take(k) =~= s);
    } else {
        assert(s.drop_last().take(k) =~= s.take(k));
        lemma_sum_prefix(s.drop_last(), f, k);
    }
}

impl Default for CumulativeMetrics {
    fn default() -> (r: Self)
        ensures
            r.spec_snapshots() == Seq::<MetricsSnapshot>::empty(),
    {
        Self::new()
    }
}

/// The metrics of one node.
#[derive(Debug, Clone)]
pub struct NodeMetrics {
    pub node_id: String,
    pub cumulative: CumulativeMetrics,
    pub half_life_observations: Vec<HalfLifeObservation>,
}

impl NodeMetrics {
    pub fn new(node_id: String) -> (r: Self)
        ensures
            r.node_id@ == node_id@,
            r.cumulative.spec_snapshots() == Seq::<MetricsSnapshot>::empty(),
            r.half_life_observations@.len() == 0,
    {
        Self { node_id, cumulative: CumulativeMetrics::new(), half_life_observations: Vec::new() }
    }

    pub fn record_half_life(&mut self, obs: HalfLifeObservation)
        ensures
            final(self).half_life_observations@ == old(self).half_life_observations@.push(obs),
            final(self).node_id == old(self).node_id,
            final(self).cumulative == old(self).cumulative,
    {
        self.half_life_observations.push(obs);
    }

    /// The median lifetime of the node's observations.
    pub fn half_life(&self) -> (r: Duration)
        ensures
            ({
                let ls = lifetimes(self.half_life_observations@);
                &&& ls.len() == 0 ==> r == secs_duration(0)
                &&& ls.len() > 0 ==> ls.contains(r)
                    && dur_nanos(r) == sort_keys(nanos_seq(ls))[(ls.len() / 2) as int]
            }),
    {
        compute_half_life(self.half_life_observations.as_slice())
    }
}

} // verus!
