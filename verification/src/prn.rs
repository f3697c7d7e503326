//! Epoch elections: a local election engine that validates, scores and
//! groups proposals into quorums, and a meta-election engine that
//! reconciles signed candidate bundles from many nodes using only local
//! trust weights.

use vstd::prelude::*;
use crate::base::{
    clone_node_ids, ElectionResult, EpochCandidateBundle, EpochId, EpochProposal, EpochQuorum,
    GlobalEpochAgreement, MetaElectionResult, NodeId,
};

verus! {

/// The weight of a node in a weight list; the last entry for the node
/// counts, and an unknown node weighs 0.
pub open spec fn weight_in(ws: Seq<(NodeId, u64)>, s: Seq<char>) -> u64
    decreases ws.len(),
{
    if ws.len() == 0 {
        0
    } else if ws.last().0@ == s {
        ws.last().1
    } else {
        weight_in(ws.drop_last(), s)
    }
}

fn lookup_weight(ws: &Vec<(NodeId, u64)>, node: &NodeId) -> (r: u64)
    ensures
        r == weight_in(ws@, node@),
{
    let mut k: usize = ws.len();
    assert(ws@.take(k as int) =~= ws@);
    while k > 0
        invariant
            k <= ws@.len(),
            weight_in(ws@, node@) == weight_in(ws@.take(k as int), node@),
        decreases k,
    {
        assert(ws@.take(k as int).drop_last() =~= ws@.take(k - 1));
        if ws[k - 1].0.0 == node.0 {
            return ws[k - 1].1;
        }
        k = k - 1;
    }
    0
}

fn push_weight(ws: &mut Vec<(NodeId, u64)>, node: NodeId, weight: u64)
    ensures
        forall|s: Seq<char>| #[trigger] weight_in(final(ws)@, s) == if s == node@ {
            weight
        } else {
            weight_in(old(ws)@, s)
        },
{
    let ghost before = ws@;
    ws.push((node, weight));
    assert(ws@.drop_last() =~= before);
}

/// A proposal passes the hard filter: it is for the next epoch, its
/// proposer has trust, and its sequence and cutoff time are not zero.
pub open spec fn proposal_valid(ws: Seq<(NodeId, u64)>, p: EpochProposal, current: EpochId) -> bool {
    &&& p.epoch.0 == current.0 + 1
    &&& weight_in(ws, p.proposer@) != 0
    &&& p.min_sequence != 0
    &&& p.cutoff_time.lamport != 0
}

/// The proposals that pass the filter, in order.
pub open spec fn valid_proposals(ws: Seq<(NodeId, u64)>, ps: Seq<EpochProposal>, current: EpochId) -> Seq<EpochProposal>
    decreases ps.len(),
{
    if ps.len() == 0 {
        Seq::empty()
    } else {
        let prev = valid_proposals(ws, ps.drop_last(), current);
        if proposal_valid(ws, ps.last(), current) { prev.push(ps.last()) } else { prev }
    }
}

pub open spec fn min100(x: u64) -> int {
    if x < 100 { x as int } else { 100 }
}

/// The score of a proposal: trust three times, sequence progress (at most
/// 100) twice, temporal freshness (at most 100) once.
pub open spec fn proposal_score(ws: Seq<(NodeId, u64)>, p: EpochProposal) -> int {
    weight_in(ws, p.proposer@) * 3 + min100(p.min_sequence) * 2 + min100(p.cutoff_time.lamport)
}

/// The proposal belongs to the group of epoch `e` and snapshot `s`.
pub open spec fn in_group(p: EpochProposal, e: EpochId, s: u64) -> bool {
    p.epoch == e && p.policy_snapshot == s
}

/// The proposers of a group, in order.
pub open spec fn group_supporters(ps: Seq<EpochProposal>, e: EpochId, s: u64) -> Seq<NodeId>
    decreases ps.len(),
{
    if ps.len() == 0 {
        Seq::empty()
    } else {
        let prev = group_supporters(ps.drop_last(), e, s);
        if in_group(ps.last(), e, s) { prev.push(ps.last().proposer) } else { prev }
    }
}

/// The summed score of a group.
pub open spec fn group_score(ws: Seq<(NodeId, u64)>, ps: Seq<EpochProposal>, e: EpochId, s: u64) -> int
    decreases ps.len(),
{
    if ps.len() == 0 {
        0
    } else {
        group_score(ws, ps.drop_last(), e, s) + if in_group(ps.last(), e, s) {
            proposal_score(ws, ps.last())
        } else {
            0
        }
    }
}

/// The summed score of all proposals.
pub open spec fn total_score(ws: Seq<(NodeId, u64)>, ps: Seq<EpochProposal>) -> int
    decreases ps.len(),
{
    if ps.len() == 0 {
        0
    } else {
        total_score(ws, ps.drop_last()) + proposal_score(ws, ps.last())
    }
}

proof fn lemma_group_score_bounds(ws: Seq<(NodeId, u64)>, ps: Seq<EpochProposal>, e: EpochId, s: u64)
    ensures
        0 <= group_score(ws, ps, e, s) <= total_score(ws, ps),
    decreases ps.len(),
{
    if ps.len() > 0 {
        lemma_group_score_bounds(ws, ps.drop_last(), e, s);
    }
}

/// A group of proposals reaches the threshold.
pub open spec fn group_qualifies(ps: Seq<EpochProposal>, e: EpochId, s: u64, threshold: u32) -> bool {
    (group_supporters(ps, e, s).len() as u32) >= threshold
}

/// The quorum matches the group of epoch `e` and snapshot `s`.
pub open spec fn is_group_quorum(ws: Seq<(NodeId, u64)>, ps: Seq<EpochProposal>, q: EpochQuorum, e: EpochId, s: u64) -> bool {
    &&& q.epoch == e
    &&& q.policy_snapshot == s
    &&& q.supporters@ == group_supporters(ps, e, s)
    &&& q.aggregate_score == group_score(ws, ps, e, s)
}

/// Local election engine.
pub struct ElectionEngine {
    node_id: NodeId,
    threshold: u32,
    weights: Vec<(NodeId, u64)>,
}

impl ElectionEngine {
    /// The trust weight of a node.
    pub open spec fn weight(&self, s: Seq<char>) -> u64 {
        weight_in(self.spec_weights(), s)
    }

    pub closed spec fn spec_weights(&self) -> Seq<(NodeId, u64)> {
        self.weights@
    }

    pub closed spec fn spec_threshold(&self) -> u32 {
        self.threshold
    }

    pub closed spec fn spec_node_id(&self) -> NodeId {
        self.node_id
    }

    pub fn new(node_id: NodeId, threshold: u32) -> (r: Self)
        ensures
            r.spec_node_id() == node_id,
            r.spec_threshold() == threshold,
            forall|s: Seq<char>| r.weight(s) == 0,
    {
        Self { node_id, threshold, weights: Vec::new() }
    }

    pub fn set_weight(&mut self, node: NodeId, weight: u64)
        ensures
            final(self).spec_node_id() == old(self).spec_node_id(),
            final(self).spec_threshold() == old(self).spec_threshold(),
            forall|s: Seq<char>| #[trigger] final(self).weight(s) == if s == node@ {
                weight
            } else {
                old(self).weight(s)
            },
    {
        push_weight(&mut self.weights, node, weight);
    }

    pub fn node_id(&self) -> (r: &NodeId)
        ensures
            *r == self.spec_node_id(),
    {
        &self.node_id
    }

    /// The trust weight of `node`: zero where none was set.
    pub fn weight_of(&self, node: &NodeId) -> (r: u64)
        ensures
            r == self.weight(node@),
    {
        lookup_weight(&self.weights, node)
    }

    /// The proposals that pass the hard filter, in order.
    pub fn validate(&self, proposals: &[EpochProposal], current_epoch: EpochId) -> (r: Vec<EpochProposal>)
        requires
            proposals@.len() > 0 ==> current_epoch.0 < u64::MAX,
        ensures
            r@ == valid_proposals(self.spec_weights(), proposals@, current_epoch),
    {
        let mut out: Vec<EpochProposal> = Vec::new();
        let mut i: usize = 0;
        while i < proposals.len()
            invariant
                i <= proposals@.len(),
                proposals@.len() > 0 ==> current_epoch.0 < u64::MAX,
                out@ == valid_proposals(self.weights@, proposals@.take(i as int), current_epoch),
            decreases proposals@.len() - i,
        {
            let p = &proposals[i];
            let ok = p.epoch.0 == current_epoch.0 + 1
                && lookup_weight(&self.weights, &p.proposer) != 0
                && p.min_sequence != 0
                && p.cutoff_time.lamport != 0;
            if ok {
                out.push(p.clone());
            }
            assert(proposals@.take(i + 1).drop_last() =~= proposals@.take(i as int));
            i = i + 1;
        }
        assert(proposals@.take(proposals@.len() as int) =~= proposals@);
        out
    }

    /// Scores a proposal.
    pub fn score(&self, proposal: &EpochProposal) -> (r: u64)
        requires
            proposal_score(self.spec_weights(), *proposal) <= u64::MAX,
        ensures
            r == proposal_score(self.spec_weights(), *proposal),
    {
        let trust = lookup_weight(&self.weights, &proposal.proposer);
        let sequence_progress = if proposal.min_sequence < 100 { proposal.min_sequence } else { 100 };
        let temporal_freshness = if proposal.cutoff_time.lamport < 100 { proposal.cutoff_time.lamport } else { 100 };
        trust * 3 + sequence_progress * 2 + temporal_freshness * 1
    }

    /// The quorum of the group of epoch `epoch` and snapshot
    /// `policy_snapshot`, when it reaches the threshold.
    fn build_quorum(&self, epoch: EpochId, policy_snapshot: u64, proposals: &Vec<EpochProposal>) -> (r: Option<EpochQuorum>)
        requires
            total_score(self.weights@, proposals@) <= u64::MAX,
        ensures
            r is Some <==> group_qualifies(proposals@, epoch, policy_snapshot, self.threshold),
            r matches Some(q) ==> is_group_quorum(self.weights@, proposals@, q, epoch, policy_snapshot),
    {
        let mut supporters: Vec<NodeId> = Vec::new();
        let mut aggregate_score: u64 = 0;
        let mut i: usize = 0;
        while i < proposals.len()
            invariant
                i <= proposals@.len(),
                total_score(self.weights@, proposals@) <= u64::MAX,
                supporters@ == group_supporters(proposals@.take(i as int), epoch, policy_snapshot),
                aggregate_score == group_score(self.weights@, proposals@.take(i as int), epoch, policy_snapshot),
            decreases proposals@.len() - i,
        {
            let ghost pre = proposals@.take(i as int);
            let ghost next = proposals@.take(i + 1);
            proof {
                assert(next.drop_last() =~= pre);
                lemma_group_score_bounds(self.weights@, next, epoch, policy_snapshot);
                lemma_total_score_prefix(self.weights@, proposals@, i + 1);
            }
            let p = &proposals[i];
            if p.epoch.0 == epoch.0 && p.policy_snapshot == policy_snapshot {
                supporters.push(p.proposer.clone());
                let sc = self.score(p);
                aggregate_score = aggregate_score + sc;
            }
            i = i + 1;
        }
        assert(proposals@.take(proposals@.len() as int) =~= proposals@);
        if (supporters.len() as u32) < self.threshold {
            return None;
        }
        Some(EpochQuorum { epoch, supporters, aggregate_score, policy_snapshot })
    }

    /// Groups proposals by epoch and snapshot; the groups that reach the
    /// threshold are candidates, and one with the highest aggregate score
    /// wins.
    pub fn form_quorum(&self, proposals: &[EpochProposal]) -> (r: ElectionResult)
        requires
            total_score(self.spec_weights(), proposals@) <= u64::MAX,
        ensures
            r is NoConsensus <==> forall|i: int| 0 <= i < proposals@.len() ==> !group_qualifies(
                proposals@, #[trigger] proposals@[i].epoch, proposals@[i].policy_snapshot, self.spec_threshold()),
            r matches ElectionResult::Candidate(q) ==> exists|i: int| 0 <= i < proposals@.len()
                && group_qualifies(proposals@, proposals@[i].epoch, proposals@[i].policy_snapshot, self.spec_threshold())
                && is_group_quorum(self.spec_weights(), proposals@, q, proposals@[i].epoch, proposals@[i].policy_snapshot),
            r matches ElectionResult::Candidate(q) ==> forall|i: int| 0 <= i < proposals@.len()
                && group_qualifies(proposals@, proposals@[i].epoch, proposals@[i].policy_snapshot, self.spec_threshold())
                ==> group_score(self.spec_weights(), proposals@, #[trigger] proposals@[i].epoch, proposals@[i].policy_snapshot)
                    <= q.aggregate_score,
    {
        let mut all: Vec<EpochProposal> = Vec::new();
        let mut c: usize = 0;
        while c < proposals.len()
            invariant
                c <= proposals@.len(),
                all@ == proposals@.take(c as int),
            decreases proposals@.len() - c,
        {
            all.push(proposals[c].clone());
            c = c + 1;
        }
        assert(all@ =~= proposals@);
        let mut best: Option<EpochQuorum> = None;
        let mut i: usize = 0;
        while i < all.len()
            invariant
                all@ == proposals@,
                i <= all@.len(),
                total_score(self.weights@, proposals@) <= u64::MAX,
                best is None <==> forall|j: int| 0 <= j < i ==> !group_qualifies(
                    proposals@, #[trigger] proposals@[j].epoch, proposals@[j].policy_snapshot, self.threshold),
                best matches Some(q) ==> exists|j: int| 0 <= j < i
                    && group_qualifies(proposals@, proposals@[j].epoch, proposals@[j].policy_snapshot, self.threshold)
                    && is_group_quorum(self.weights@, proposals@, q, proposals@[j].epoch, proposals@[j].policy_snapshot),
                best matches Some(q) ==> forall|j: int| 0 <= j < i
                    && group_qualifies(proposals@, proposals@[j].epoch, proposals@[j].policy_snapshot, self.threshold)
                    ==> group_score(self.weights@, proposals@, #[trigger] proposals@[j].epoch, proposals@[j].policy_snapshot)
                        <= q.aggregate_score,
            decreases all@.len() - i,
        {
            let e = all[i].epoch;
            let s = all[i].policy_snapshot;
            match self.build_quorum(e, s, &all) {
                Some(q) => {
                    let better = match &best {
                        Some(b) => q.aggregate_score >= b.aggregate_score,
                        None => true,
                    };
                    if better {
                        best = Some(q);
                    }
                },
                None => {},
            }
            i = i + 1;
        }
        match best {
            Some(q) => ElectionResult::Candidate(q),
            None => ElectionResult::NoConsensus,
        }
    }

    /// A full round: filter, then form a quorum.
    pub fn run_election(&self, proposals: Vec<EpochProposal>, current_epoch: EpochId) -> (r: ElectionResult)
        requires
            proposals@.len() > 0 ==> current_epoch.0 < u64::MAX,
            total_score(self.spec_weights(), valid_proposals(self.spec_weights(), proposals@, current_epoch)) <= u64::MAX,
        ensures
            ({
                let vs = valid_proposals(self.spec_weights(), proposals@, current_epoch);
                &&& r is NoConsensus <==> forall|i: int| 0 <= i < vs.len() ==> !group_qualifies(
                    vs, #[trigger] vs[i].epoch, vs[i].policy_snapshot, self.spec_threshold())
                &&& r matches ElectionResult::Candidate(q) ==> exists|i: int| 0 <= i < vs.len()
                    && group_qualifies(vs, vs[i].epoch, vs[i].policy_snapshot, self.spec_threshold())
                    && is_group_quorum(self.spec_weights(), vs, q, vs[i].epoch, vs[i].policy_snapshot)
                &&& r matches ElectionResult::Candidate(q) ==> forall|i: int| 0 <= i < vs.len()
                    && group_qualifies(vs, vs[i].epoch, vs[i].policy_snapshot, self.spec_threshold())
                    ==> group_score(self.spec_weights(), vs, #[trigger] vs[i].epoch, vs[i].policy_snapshot)
                        <= q.aggregate_score
            }),
    {
        let valid = self.validate(proposals.as_slice(), current_epoch);
        self.form_quorum(valid.as_slice())
    }
}

proof fn lemma_total_score_prefix(ws: Seq<(NodeId, u64)>, ps: Seq<EpochProposal>, k: int)
    requires
        0 <= k <= ps.len(),
    ensures
        total_score(ws, ps.take(k)) <= total_score(ws, ps),
        0 <= total_score(ws, ps.take(k)),
    decreases ps.len(),
{
    if ps.len() > 0 {
        if k == ps.len() {
            assert(ps.take(k) =~= ps);
            lemma_total_nonneg(ws, ps);
        } else {
            assert(ps.drop_last().take(k) =~= ps.take(k));
            lemma_total_score_prefix(ws, ps.drop_last(), k);
        }
    } else {
        assert(ps.take(k) =~= ps);
    }
}

proof fn lemma_total_nonneg(ws: Seq<(NodeId, u64)>, ps: Seq<EpochProposal>)
    ensures
        0 <= total_score(ws, ps),
    decreases ps.len(),
{
    if ps.len() > 0 {
        lemma_total_nonneg(ws, ps.drop_last());
    }
}

/// Thresholds of the logarithmic trust scale: entry `k` (from zero) is the
/// least weight `w` with `ln(1 + w) >= k + 1`, that is, the smallest
/// integer at or above `e^(k+1)`, minus one.
pub open spec fn ln_thresholds() -> Seq<u64> {
    seq![2, 7, 20, 54, 148, 403, 1096, 2980, 8103, 22026, 59874, 162754, 442413, 1202604,
        3269017, 8886110, 24154952, 65659969, 178482300, 485165195, 1318815734, 3584912846,
        9744803446, 26489122129, 72004899337, 195729609428, 532048240601, 1446257064291,
        3931334297144, 10686474581524, 29048849665247, 78962960182680, 214643579785916,
        583461742527454, 1586013452313430, 4311231547115195, 11719142372802611,
        31855931757113756, 86593400423993746, 235385266837019985, 639843493530054949,
        1739274941520501047, 4727839468229346561, 12851600114359308275]
}

/// The number of entries of `t` at or below `w`.
pub open spec fn count_at_most(t: Seq<u64>, w: u64) -> nat
    decreases t.len(),
{
    if t.len() == 0 {
        0
    } else {
        count_at_most(t.drop_last(), w) + if t.last() <= w { 1nat } else { 0nat }
    }
}

/// The logarithmic influence of a trust weight: the integer part of
/// `ln(1 + w)`, read off the threshold table.
pub open spec fn log_influence(w: u64) -> nat {
    count_at_most(ln_thresholds(), w)
}

proof fn lemma_count_at_most_bound(t: Seq<u64>, w: u64)
    ensures
        count_at_most(t, w) <= t.len(),
    decreases t.len(),
{
    if t.len() > 0 {
        lemma_count_at_most_bound(t.drop_last(), w);
    }
}

/// The integer part of `ln(1 + w)`.
pub fn log_influence_of(w: u64) -> (r: u64)
    ensures
        r == log_influence(w),
        r <= 44,
{
    let t: Vec<u64> = vec![2, 7, 20, 54, 148, 403, 1096, 2980, 8103, 22026, 59874, 162754, 442413, 1202604,
        3269017, 8886110, 24154952, 65659969, 178482300, 485165195, 1318815734, 3584912846,
        9744803446, 26489122129, 72004899337, 195729609428, 532048240601, 1446257064291,
        3931334297144, 10686474581524, 29048849665247, 78962960182680, 214643579785916,
        583461742527454, 1586013452313430, 4311231547115195, 11719142372802611,
        31855931757113756, 86593400423993746, 235385266837019985, 639843493530054949,
        1739274941520501047, 4727839468229346561, 12851600114359308275];
    assert(t@ =~= ln_thresholds());
    let mut count: u64 = 0;
    let mut k: usize = 0;
    while k < t.len()
        invariant
            t@ == ln_thresholds(),
            k <= t@.len(),
            count == count_at_most(t@.take(k as int), w),
            count <= k,
        decreases t@.len() - k,
    {
        assert(t@.take(k + 1).drop_last() =~= t@.take(k as int));
        if t[k] <= w {
            count = count + 1;
        }
        k = k + 1;
    }
    assert(t@.take(t@.len() as int) =~= t@);
    count
}

/// The structural score of a quorum: the summed logarithmic influence of
/// its supporters under the local weights.
pub open spec fn structural_score(ws: Seq<(NodeId, u64)>, supporters: Seq<NodeId>) -> nat
    decreases supporters.len(),
{
    if supporters.len() == 0 {
        0
    } else {
        structural_score(ws, supporters.drop_last()) + log_influence(weight_in(ws, supporters.last()@))
    }
}

proof fn lemma_structural_prefix(ws: Seq<(NodeId, u64)>, sup: Seq<NodeId>, k: int)
    requires
        0 <= k <= sup.len(),
    ensures
        structural_score(ws, sup.take(k)) <= structural_score(ws, sup),
    decreases sup.len(),
{
    if k == sup.len() {
        assert(sup.take(k) =~= sup);
    } else {
        assert(sup.drop_last().take(k) =~= sup.take(k));
        lemma_structural_prefix(ws, sup.drop_last(), k);
    }
}

/// A bundle passes validation: it is for the next epoch and matches its
/// quorum, its quorum is not empty and is not the submitter alone, the
/// submitter and every supporter have trust, and the recomputed structural
/// score is not zero.
pub open spec fn bundle_valid(ws: Seq<(NodeId, u64)>, b: EpochCandidateBundle, current: EpochId) -> bool {
    &&& b.epoch.0 == current.0 + 1
    &&& b.quorum.epoch == b.epoch
    &&& b.quorum.supporters@.len() > 0
    &&& weight_in(ws, b.node_id@) != 0
    &&& structural_score(ws, b.quorum.supporters@) != 0
    &&& !(forall|i: int| 0 <= i < b.quorum.supporters@.len() ==> b.quorum.supporters@[i]@ == b.node_id@)
    &&& forall|i: int| 0 <= i < b.quorum.supporters@.len() ==> weight_in(ws, b.quorum.supporters@[i]@) != 0
}

/// The bundles that pass validation, in order.
pub open spec fn valid_bundles(ws: Seq<(NodeId, u64)>, bs: Seq<EpochCandidateBundle>, current: EpochId) -> Seq<EpochCandidateBundle>
    decreases bs.len(),
{
    if bs.len() == 0 {
        Seq::empty()
    } else {
        let prev = valid_bundles(ws, bs.drop_last(), current);
        if bundle_valid(ws, bs.last(), current) { prev.push(bs.last()) } else { prev }
    }
}

/// The bundles of the cluster of epoch `e` and snapshot `s`, in order.
pub open spec fn cluster_of(bs: Seq<EpochCandidateBundle>, e: EpochId, s: u64) -> Seq<EpochCandidateBundle>
    decreases bs.len(),
{
    if bs.len() == 0 {
        Seq::empty()
    } else {
        let prev = cluster_of(bs.drop_last(), e, s);
        if bs.last().epoch == e && bs.last().quorum.policy_snapshot == s { prev.push(bs.last()) } else { prev }
    }
}

/// Summed trust of the submitters of a cluster.
pub open spec fn cluster_trust(ws: Seq<(NodeId, u64)>, bs: Seq<EpochCandidateBundle>) -> nat
    decreases bs.len(),
{
    if bs.len() == 0 { 0 } else { (cluster_trust(ws, bs.drop_last()) + weight_in(ws, bs.last().node_id@)) as nat }
}

/// The largest structural score in a cluster.
pub open spec fn cluster_max_structural(ws: Seq<(NodeId, u64)>, bs: Seq<EpochCandidateBundle>) -> nat
    decreases bs.len(),
{
    if bs.len() == 0 {
        0
    } else {
        let prev = cluster_max_structural(ws, bs.drop_last());
        let cur = structural_score(ws, bs.last().quorum.supporters@);
        if cur > prev { cur } else { prev }
    }
}

/// The score of a cluster: summed trust three times, the best structural
/// score twice, and the number of agreeing bundles once.
pub open spec fn cluster_score(ws: Seq<(NodeId, u64)>, bs: Seq<EpochCandidateBundle>) -> nat {
    cluster_trust(ws, bs) * 3 + cluster_max_structural(ws, bs) * 2 + bs.len()
}

proof fn lemma_cluster_trust_prefix(ws: Seq<(NodeId, u64)>, bs: Seq<EpochCandidateBundle>, k: int)
    requires
        0 <= k <= bs.len(),
    ensures
        cluster_trust(ws, bs.take(k)) <= cluster_trust(ws, bs),
        cluster_max_structural(ws, bs.take(k)) <= cluster_max_structural(ws, bs),
    decreases bs.len(),
{
    if k == bs.len() {
        assert(bs.take(k) =~= bs);
    } else {
        assert(bs.drop_last().take(k) =~= bs.take(k));
        lemma_cluster_trust_prefix(ws, bs.drop_last(), k);
    }
}

/// The submitting nodes of a sequence of bundles.
pub open spec fn submitters(bs: Seq<EpochCandidateBundle>) -> Seq<NodeId> {
    bs.map_values(|b: EpochCandidateBundle| b.node_id)
}

/// The agreement matches the cluster `c` of epoch `e`: its quorum is the
/// quorum of a bundle of `c` with the highest structural score.
pub open spec fn is_cluster_agreement(ws: Seq<(NodeId, u64)>, a: GlobalEpochAgreement, c: Seq<EpochCandidateBundle>, e: EpochId) -> bool {
    &&& a.epoch == e
    &&& a.supporting_nodes@ == submitters(c)
    &&& a.global_score == cluster_score(ws, c)
    &&& exists|j: int| 0 <= j < c.len()
        && a.quorum.epoch == c[j].quorum.epoch
        && a.quorum.supporters@ == c[j].quorum.supporters@
        && a.quorum.aggregate_score == c[j].quorum.aggregate_score
        && a.quorum.policy_snapshot == c[j].quorum.policy_snapshot
        && structural_score(ws, c[j].quorum.supporters@) == cluster_max_structural(ws, c)
}

/// The bundles behind a sequence of references.
pub open spec fn bundle_values(s: Seq<&EpochCandidateBundle>) -> Seq<EpochCandidateBundle> {
    s.map_values(|b: &EpochCandidateBundle| *b)
}

/// The cluster that the `i`-th bundle belongs to: the bundles sharing its
/// epoch and policy snapshot.
pub open spec fn cluster_at(bs: Seq<EpochCandidateBundle>, i: int) -> Seq<EpochCandidateBundle> {
    cluster_of(bs, bs[i].epoch, bs[i].quorum.policy_snapshot)
}

/// The cluster of the `i`-th bundle holds at least `threshold` bundles.
pub open spec fn cluster_qualifies(bs: Seq<EpochCandidateBundle>, i: int, threshold: u32) -> bool {
    (cluster_at(bs, i).len() as u32) >= threshold
}

/// Some cluster holds at least `threshold` bundles.
pub open spec fn some_cluster_qualifies(bs: Seq<EpochCandidateBundle>, threshold: u32) -> bool {
    exists|i: int| 0 <= i < bs.len() && cluster_qualifies(bs, i, threshold)
}

/// The score of every qualifying cluster fits a counter.
pub open spec fn cluster_scores_fit(ws: Seq<(NodeId, u64)>, bs: Seq<EpochCandidateBundle>, threshold: u32) -> bool {
    forall|i: int| 0 <= i < bs.len() && #[trigger] cluster_qualifies(bs, i, threshold)
        ==> cluster_score(ws, cluster_at(bs, i)) <= u64::MAX
}

/// Every bundle's structural score fits a counter.
pub open spec fn structural_scores_fit(ws: Seq<(NodeId, u64)>, bs: Seq<EpochCandidateBundle>) -> bool {
    forall|i: int| 0 <= i < bs.len() ==> structural_score(ws, #[trigger] bs[i].quorum.supporters@) <= u64::MAX
}

proof fn lemma_valid_fit(ws: Seq<(NodeId, u64)>, bs: Seq<EpochCandidateBundle>, current: EpochId)
    requires
        structural_scores_fit(ws, bs),
    ensures
        structural_scores_fit(ws, valid_bundles(ws, bs, current)),
    decreases bs.len(),
{
    if bs.len() > 0 {
        let prev = bs.drop_last();
        assert forall|i: int| 0 <= i < prev.len() implies structural_score(ws, #[trigger] prev[i].quorum.supporters@) <= u64::MAX by {
            assert(prev[i] == bs[i]);
        }
        lemma_valid_fit(ws, prev, current);
        let pv = valid_bundles(ws, prev, current);
        if bundle_valid(ws, bs.last(), current) {
            assert forall|i: int| 0 <= i < pv.push(bs.last()).len() implies structural_score(ws, #[trigger] pv.push(bs.last())[i].quorum.supporters@) <= u64::MAX by {
                if i < pv.len() {
                    assert(pv.push(bs.last())[i] == pv[i]);
                } else {
                    assert(bs[bs.len() - 1] == bs.last());
                }
            }
        }
    }
}

proof fn lemma_cluster_fit(ws: Seq<(NodeId, u64)>, bs: Seq<EpochCandidateBundle>, e: EpochId, s: u64)
    requires
        structural_scores_fit(ws, bs),
    ensures
        structural_scores_fit(ws, cluster_of(bs, e, s)),
    decreases bs.len(),
{
    if bs.len() > 0 {
        let prev = bs.drop_last();
        assert forall|i: int| 0 <= i < prev.len() implies structural_score(ws, #[trigger] prev[i].quorum.supporters@) <= u64::MAX by {
            assert(prev[i] == bs[i]);
        }
        lemma_cluster_fit(ws, prev, e, s);
        let pc = cluster_of(prev, e, s);
        if bs.last().epoch == e && bs.last().quorum.policy_snapshot == s {
            assert forall|i: int| 0 <= i < pc.push(bs.last()).len() implies structural_score(ws, #[trigger] pc.push(bs.last())[i].quorum.supporters@) <= u64::MAX by {
                if i < pc.len() {
                    assert(pc.push(bs.last())[i] == pc[i]);
                } else {
                    assert(bs[bs.len() - 1] == bs.last());
                }
            }
        }
    }
}

proof fn lemma_cluster_nonempty(bs: Seq<EpochCandidateBundle>, k: int)
    requires
        0 <= k < bs.len(),
    ensures
        cluster_at(bs, k).len() > 0,
    decreases bs.len(),
{
    let e = bs[k].epoch;
    let s = bs[k].quorum.policy_snapshot;
    if k < bs.len() - 1 {
        let prev = bs.drop_last();
        assert(prev[k] == bs[k]);
        lemma_cluster_nonempty(prev, k);
        assert(cluster_at(prev, k) == cluster_of(prev, e, s));
    }
}

/// Meta-election engine reconciling candidate bundles across nodes.
pub struct MetaElectionEngine {
    weights: Vec<(NodeId, u64)>,
    quorum_threshold: u32,
    agreement_threshold: u32,
    penalty: u64,
}

impl MetaElectionEngine {
    pub closed spec fn spec_weights(&self) -> Seq<(NodeId, u64)> {
        self.weights@
    }

    pub closed spec fn spec_quorum_threshold(&self) -> u32 {
        self.quorum_threshold
    }

    pub closed spec fn spec_agreement_threshold(&self) -> u32 {
        self.agreement_threshold
    }

    pub closed spec fn spec_penalty(&self) -> u64 {
        self.penalty
    }

    pub fn new(quorum_threshold: u32, agreement_threshold: u32) -> (r: Self)
        ensures
            r.spec_quorum_threshold() == quorum_threshold,
            r.spec_agreement_threshold() == agreement_threshold,
            r.spec_penalty() == 1,
            forall|s: Seq<char>| weight_in(r.spec_weights(), s) == 0,
    {
        Self { weights: Vec::new(), quorum_threshold, agreement_threshold, penalty: 1 }
    }

    pub fn set_weight(&mut self, node: NodeId, weight: u64)
        ensures
            final(self).spec_quorum_threshold() == old(self).spec_quorum_threshold(),
            final(self).spec_agreement_threshold() == old(self).spec_agreement_threshold(),
            final(self).spec_penalty() == old(self).spec_penalty(),
            forall|s: Seq<char>| #[trigger] weight_in(final(self).spec_weights(), s) == if s == node@ {
                weight
            } else {
                weight_in(old(self).spec_weights(), s)
            },
    {
        push_weight(&mut self.weights, node, weight);
    }

    pub fn get_weight(&self, node: &NodeId) -> (r: u64)
        ensures
            r == weight_in(self.spec_weights(), node@),
    {
        lookup_weight(&self.weights, node)
    }

    /// Lowers a node's trust by the penalty, not below zero, and returns
    /// the new trust.
    pub fn penalize_node(&mut self, node: &NodeId) -> (r: u64)
        ensures
            r == if weight_in(old(self).spec_weights(), node@) >= old(self).spec_penalty() {
                (weight_in(old(self).spec_weights(), node@) - old(self).spec_penalty()) as u64
            } else {
                0
            },
            final(self).spec_quorum_threshold() == old(self).spec_quorum_threshold(),
            final(self).spec_agreement_threshold() == old(self).spec_agreement_threshold(),
            final(self).spec_penalty() == old(self).spec_penalty(),
            forall|s: Seq<char>| #[trigger] weight_in(final(self).spec_weights(), s) == if s == node@ {
                r
            } else {
                weight_in(old(self).spec_weights(), s)
            },
    {
        let current = lookup_weight(&self.weights, node);
        let updated = current.saturating_sub(self.penalty);
        push_weight(&mut self.weights, node.clone(), updated);
        updated
    }

    /// The structural score of a quorum, from local trust only.
    pub fn recompute_quorum_score(&self, quorum: &EpochQuorum) -> (r: u64)
        requires
            structural_score(self.spec_weights(), quorum.supporters@) <= u64::MAX,
        ensures
            r == structural_score(self.spec_weights(), quorum.supporters@),
    {
        let mut sum: u64 = 0;
        let mut i: usize = 0;
        while i < quorum.supporters.len()
            invariant
                i <= quorum.supporters@.len(),
                structural_score(self.weights@, quorum.supporters@) <= u64::MAX,
                sum == structural_score(self.weights@, quorum.supporters@.take(i as int)),
            decreases quorum.supporters@.len() - i,
        {
            proof {
                assert(quorum.supporters@.take(i + 1).drop_last() =~= quorum.supporters@.take(i as int));
                lemma_structural_prefix(self.weights@, quorum.supporters@, i + 1);
            }
            let w = lookup_weight(&self.weights, &quorum.supporters[i]);
            let l = log_influence_of(w);
            sum = sum + l;
            i = i + 1;
        }
        assert(quorum.supporters@.take(quorum.supporters@.len() as int) =~= quorum.supporters@);
        sum
    }

    /// Validates a received bundle against local state only.
    pub fn validate_bundle(&self, bundle: &EpochCandidateBundle, current_epoch: EpochId) -> (r: bool)
        requires
            current_epoch.0 < u64::MAX,
            structural_score(self.spec_weights(), bundle.quorum.supporters@) <= u64::MAX,
        ensures
            r == bundle_valid(self.spec_weights(), *bundle, current_epoch),
    {
        if bundle.epoch.0 != current_epoch.0 + 1 {
            return false;
        }
        if bundle.quorum.epoch.0 != bundle.epoch.0 {
            return false;
        }
        if bundle.quorum.supporters.len() == 0 {
            return false;
        }
        let submitting_weight = lookup_weight(&self.weights, &bundle.node_id);
        if submitting_weight == 0 {
            return false;
        }
        let recomputed = self.recompute_quorum_score(&bundle.quorum);
        if recomputed == 0 {
            return false;
        }
        let sup = &bundle.quorum.supporters;
        let mut all_self = true;
        let mut any_untrusted = false;
        let mut i: usize = 0;
        while i < sup.len()
            invariant
                i <= sup@.len(),
                all_self == forall|j: int| 0 <= j < i ==> sup@[j]@ == bundle.node_id@,
                any_untrusted == exists|j: int| 0 <= j < i && weight_in(self.weights@, sup@[j]@) == 0,
            decreases sup@.len() - i,
        {
            if !(sup[i].0 == bundle.node_id.0) {
                all_self = false;
            }
            if lookup_weight(&self.weights, &sup[i]) == 0 {
                any_untrusted = true;
            }
            i = i + 1;
        }
        if all_self {
            return false;
        }
        if any_untrusted {
            return false;
        }
        true
    }

    /// The bundles that pass validation, in order.
    pub fn filter_valid_bundles(&self, bundles: Vec<EpochCandidateBundle>, current_epoch: EpochId) -> (r: Vec<EpochCandidateBundle>)
        requires
            bundles@.len() > 0 ==> current_epoch.0 < u64::MAX,
            structural_scores_fit(self.spec_weights(), bundles@),
        ensures
            r@ == valid_bundles(self.spec_weights(), bundles@, current_epoch),
    {
        let ghost bs = bundles@;
        let mut rest = bundles;
        let mut out: Vec<EpochCandidateBundle> = Vec::new();
        let mut i: usize = 0;
        let n = rest.len();
        while i < n
            invariant
                n == bs.len(),
                i <= n,
                rest@ == bs.skip(i as int),
                bs.len() > 0 ==> current_epoch.0 < u64::MAX,
                structural_scores_fit(self.weights@, bs),
                out@ == valid_bundles(self.weights@, bs.take(i as int), current_epoch),
            decreases n - i,
        {
            let b = rest.remove(0);
            assert(b == bs[i as int]);
            assert(bs.take(i + 1).drop_last() =~= bs.take(i as int));
            if self.validate_bundle(&b, current_epoch) {
                out.push(b);
            }
            assert(rest@ =~= bs.skip(i + 1));
            i = i + 1;
        }
        assert(bs.take(n as int) =~= bs);
        out
    }

    /// Scores a cluster from local trust only.
    pub fn score_cluster(&self, bundles: &[&EpochCandidateBundle]) -> (r: u64)
        requires
            structural_scores_fit(self.spec_weights(), bundle_values(bundles@)),
            cluster_score(self.spec_weights(), bundle_values(bundles@)) <= u64::MAX,
        ensures
            r == cluster_score(self.spec_weights(), bundle_values(bundles@)),
    {
        let ghost bs = bundle_values(bundles@);
        let mut sum_trust: u64 = 0;
        let mut max_structural: u64 = 0;
        let mut i: usize = 0;
        while i < bundles.len()
            invariant
                bs == bundle_values(bundles@),
                i <= bs.len(),
                structural_scores_fit(self.weights@, bs),
                cluster_score(self.weights@, bs) <= u64::MAX,
                sum_trust == cluster_trust(self.weights@, bs.take(i as int)),
                max_structural == cluster_max_structural(self.weights@, bs.take(i as int)),
            decreases bs.len() - i,
        {
            proof {
                assert(bs.take(i + 1).drop_last() =~= bs.take(i as int));
                lemma_cluster_trust_prefix(self.weights@, bs, i + 1);
            }
            let b: &EpochCandidateBundle = bundles[i];
            assert(*b == bs[i as int]);
            let w = lookup_weight(&self.weights, &b.node_id);
            sum_trust = sum_trust + w;
            let st = self.recompute_quorum_score(&b.quorum);
            if st > max_structural {
                max_structural = st;
            }
            i = i + 1;
        }
        assert(bs.take(bs.len() as int) =~= bs);
        sum_trust * 3 + max_structural * 2 + bundles.len() as u64
    }

    /// The bundles of `valid` that share epoch `e` and snapshot `s`, in order.
    fn collect_cluster<'a>(valid: &'a Vec<EpochCandidateBundle>, e: EpochId, snapshot: u64) -> (r: Vec<&'a EpochCandidateBundle>)
        ensures
            bundle_values(r@) == cluster_of(valid@, e, snapshot),
    {
        let mut out: Vec<&'a EpochCandidateBundle> = Vec::new();
        let mut i: usize = 0;
        while i < valid.len()
            invariant
                i <= valid@.len(),
                bundle_values(out@) == cluster_of(valid@.take(i as int), e, snapshot),
            decreases valid@.len() - i,
        {
            assert(valid@.take(i + 1).drop_last() =~= valid@.take(i as int));
            if valid[i].epoch.0 == e.0 && valid[i].quorum.policy_snapshot == snapshot {
                let ghost before = out@;
                out.push(&valid[i]);
                assert(bundle_values(out@) =~= bundle_values(before).push(valid@[i as int]));
            }
            i = i + 1;
        }
        assert(valid@.take(valid@.len() as int) =~= valid@);
        out
    }

    /// Whether a bundle before position `i` has the same epoch and snapshot
    /// as the bundle at `i`.
    fn key_seen_before(valid: &Vec<EpochCandidateBundle>, i: usize) -> (r: bool)
        requires
            i < valid@.len(),
        ensures
            r == exists|j: int| 0 <= j < i && valid@[j].epoch == valid@[i as int].epoch
                && valid@[j].quorum.policy_snapshot == valid@[i as int].quorum.policy_snapshot,
    {
        let mut j: usize = 0;
        while j < i
            invariant
                j <= i < valid@.len(),
                forall|k: int| 0 <= k < j ==> !(valid@[k].epoch == valid@[i as int].epoch
                    && valid@[k].quorum.policy_snapshot == valid@[i as int].quorum.policy_snapshot),
            decreases i - j,
        {
            if valid[j].epoch.0 == valid[i].epoch.0 && valid[j].quorum.policy_snapshot == valid[i].quorum.policy_snapshot {
                return true;
            }
            j = j + 1;
        }
        false
    }

    /// The position of a bundle of the cluster whose quorum has the highest
    /// structural score; the last such one on ties.
    fn best_quorum_index(&self, cluster: &Vec<&EpochCandidateBundle>) -> (r: usize)
        requires
            cluster@.len() > 0,
            structural_scores_fit(self.spec_weights(), bundle_values(cluster@)),
        ensures
            r < cluster@.len(),
            structural_score(self.spec_weights(), cluster@[r as int].quorum.supporters@)
                == cluster_max_structural(self.spec_weights(), bundle_values(cluster@)),
    {
        let ghost bs = bundle_values(cluster@);
        let mut best: usize = 0;
        let mut best_score: u64 = 0;
        let mut i: usize = 0;
        while i < cluster.len()
            invariant
                bs == bundle_values(cluster@),
                i <= cluster@.len(),
                structural_scores_fit(self.weights@, bs),
                best_score == cluster_max_structural(self.weights@, bs.take(i as int)),
                i > 0 ==> best < i && structural_score(self.weights@, cluster@[best as int].quorum.supporters@) == best_score,
            decreases cluster@.len() - i,
        {
            assert(bs.take(i + 1).drop_last() =~= bs.take(i as int));
            assert(bs[i as int] == *cluster@[i as int]);
            let st = self.recompute_quorum_score(&cluster[i].quorum);
            if st >= best_score {
                best = i;
                best_score = st;
            }
            i = i + 1;
        }
        assert(bs.take(cluster@.len() as int) =~= bs);
        best
    }

    /// The submitting nodes of a cluster, in order.
    fn cluster_submitters(cluster: &Vec<&EpochCandidateBundle>) -> (r: Vec<NodeId>)
        ensures
            r@ == submitters(bundle_values(cluster@)),
    {
        let ghost bs = bundle_values(cluster@);
        let mut out: Vec<NodeId> = Vec::new();
        let mut i: usize = 0;
        while i < cluster.len()
            invariant
                bs == bundle_values(cluster@),
                i <= cluster@.len(),
                out@ =~= submitters(bs.take(i as int)),
            decreases cluster@.len() - i,
        {
            out.push(cluster[i].node_id.clone());
            assert(submitters(bs.take(i + 1)) =~= submitters(bs.take(i as int)).push(bs[i as int].node_id));
            i = i + 1;
        }
        assert(bs.take(cluster@.len() as int) =~= bs);
        out
    }

    /// Runs a meta-election: clusters the valid bundles by epoch and policy
    /// snapshot, scores each cluster with enough bundles, and returns the
    /// agreement of a cluster with the highest score.
    pub fn run_meta_election(&self, bundles: Vec<EpochCandidateBundle>, current_epoch: EpochId) -> (r: MetaElectionResult)
        requires
            bundles@.len() > 0 ==> current_epoch.0 < u64::MAX,
            structural_scores_fit(self.spec_weights(), bundles@),
            cluster_scores_fit(
                self.spec_weights(),
                valid_bundles(self.spec_weights(), bundles@, current_epoch),
                self.spec_agreement_threshold(),
            ),
        ensures
            ({
                let v = valid_bundles(self.spec_weights(), bundles@, current_epoch);
                &&& (r is NoConsensus) <==> ((v.len() as u32) < self.spec_quorum_threshold()
                    || !some_cluster_qualifies(v, self.spec_agreement_threshold()))
                &&& r matches MetaElectionResult::Agreement(a) ==> exists|i: int|
                    0 <= i < v.len() && cluster_qualifies(v, i, self.spec_agreement_threshold())
                    && is_cluster_agreement(self.spec_weights(), a, cluster_at(v, i), v[i].epoch)
                    && forall|j: int| 0 <= j < v.len() && #[trigger] cluster_qualifies(v, j, self.spec_agreement_threshold())
                        ==> cluster_score(self.spec_weights(), cluster_at(v, j)) <= a.global_score
            }),
    {
        let ghost bs = bundles@;
        let valid = self.filter_valid_bundles(bundles, current_epoch);
        let ghost v = valid@;
        if (valid.len() as u32) < self.quorum_threshold {
            return MetaElectionResult::NoConsensus;
        }
        let mut best: Option<GlobalEpochAgreement> = None;
        let mut i: usize = 0;
        while i < valid.len()
            invariant
                v == valid@,
                v == valid_bundles(self.weights@, bs, current_epoch),
                i <= v.len(),
                structural_scores_fit(self.weights@, bs),
                cluster_scores_fit(self.weights@, v, self.agreement_threshold),
                best is None <==> !exists|k: int| 0 <= k < i && cluster_qualifies(v, k, self.agreement_threshold),
                best matches Some(a) ==> exists|k: int|
                    0 <= k < i && cluster_qualifies(v, k, self.agreement_threshold)
                    && is_cluster_agreement(self.weights@, a, cluster_at(v, k), v[k].epoch)
                    && forall|j: int| 0 <= j < i && #[trigger] cluster_qualifies(v, j, self.agreement_threshold)
                        ==> cluster_score(self.weights@, cluster_at(v, j)) <= a.global_score,
            decreases v.len() - i,
        {
            proof { lemma_valid_fit(self.weights@, bs, current_epoch); }
            if Self::key_seen_before(&valid, i) {
                proof {
                    let j = choose|j: int| 0 <= j < i && v[j].epoch == v[i as int].epoch
                        && v[j].quorum.policy_snapshot == v[i as int].quorum.policy_snapshot;
                    assert(cluster_at(v, j) == cluster_at(v, i as int));
                    assert(cluster_qualifies(v, j, self.agreement_threshold) == cluster_qualifies(v, i as int, self.agreement_threshold));
                }
            } else {
                let e = valid[i].epoch;
                let cluster = Self::collect_cluster(&valid, e, valid[i].quorum.policy_snapshot);
                assert(bundle_values(cluster@) == cluster_at(v, i as int));
                if (cluster.len() as u32) >= self.agreement_threshold {
                    assert(cluster_qualifies(v, i as int, self.agreement_threshold));
                    proof { lemma_cluster_fit(self.weights@, v, e, v[i as int].quorum.policy_snapshot); }
                    let global_score = self.score_cluster(cluster.as_slice());
                    let supporting_nodes = Self::cluster_submitters(&cluster);
                    proof { lemma_cluster_nonempty(v, i as int); }
                    let b = self.best_quorum_index(&cluster);
                    let quorum = cluster[b].quorum.clone();
                    assert(bundle_values(cluster@)[b as int] == *cluster@[b as int]);
                    let agreement = GlobalEpochAgreement { epoch: e, quorum, supporting_nodes, global_score };
                    let replace = match &best {
                        None => true,
                        Some(prev) => global_score >= prev.global_score,
                    };
                    if replace {
                        best = Some(agreement);
                    }
                }
            }
            i = i + 1;
        }
        match best {
            None => MetaElectionResult::NoConsensus,
            Some(a) => MetaElectionResult::Agreement(a),
        }
    }
}

} // verus!
