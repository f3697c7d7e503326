//! Properties that span several operations of the kernel.

use vstd::prelude::*;
use crate::base::{EpistemicReader, ExecutionEnvelope, EpochId, KnowledgeMutation};
use crate::runtime::{
    appended, envelope_scan, latest, sim_staged, visible, TemporalIndex, VantageRuntime,
};
use crate::trust::RevocationRegistry;
use crate::tx::edge_list;
use crate::benchmark::{bench_tally, committed_bytes, committing_ops, inferable_ops, OpView, Strategy};
use crate::prn::weight_in;
use crate::base::NodeId;
use crate::types::caf::{built_hash_value, hash_values, lemma_sort_values_props, lemma_sorted_unique, sort_values, CafHash};
use crate::types::semantic::{bind_innermost, resolve_in, Commutativity};
use crate::types::symbol_id::{canonical_fqn, name_index};
use crate::vfp::alignment::{compose_view, rank_of, RelationView};
use crate::vfp::IncompatibilityReason;
use crate::vfp::market::{released_escrow, settled_total};
use crate::vfp::alignment::{alignment_defined, alignment_of};
use crate::vfp::closure::{fork_epochs_of, ClosureGraph, StateView};
use crate::vfp::{same_commitment, NodeView};
use crate::base::{EpochCandidateBundle, EpochProposal, GlobalEpochAgreement, LogicalTime, MutationOp};
use crate::prn::{cluster_at, cluster_of, is_cluster_agreement, proposal_score};
use crate::tx::{dependency, spec_reads, spec_writes, DependencyType};

verus! {

proof fn lemma_latest_after_appended(
    prefix: Seq<(Option<Seq<char>>, std::time::SystemTime, Seq<char>)>,
    ms: Seq<KnowledgeMutation>,
    s: Seq<char>,
    hash: Seq<char>,
)
    ensures
        latest(prefix + appended(ms, s, hash)) == match sim_staged(ms, s) {
            Some(c) => c,
            None => latest(prefix),
        },
    decreases ms.len(),
{
    if ms.len() == 0 {
        assert(prefix + appended(ms, s, hash) =~= prefix);
    } else if ms.last().op.target() == s {
        let a = appended(ms.drop_last(), s, hash);
        let y = (crate::runtime::payload_view(ms.last()), ms.last().timestamp, hash);
        assert(prefix + a.push(y) =~= (prefix + a).push(y));
    } else {
        lemma_latest_after_appended(prefix, ms.drop_last(), s, hash);
    }
}

/// Read after commit: once a batch is committed, reading any resource gives
/// what the batch's staged view showed for it: the content of the last
/// mutation of the batch on it, or, where none touched it, what was there.
pub proof fn law_committed_batch_reads_as_staged(
    before: TemporalIndex,
    after: TemporalIndex,
    ms: Seq<KnowledgeMutation>,
    r: Result<Vec<crate::base::CommitReceipt>, String>,
)
    requires
        VantageRuntime::transaction_outcome(before, after, ms, r),
        r is Ok,
    ensures
        forall|s: Seq<char>| #[trigger] after.spec_read(s) == visible(before, ms, s),
{
    assert forall|s: Seq<char>| #[trigger] after.spec_read(s) == visible(before, ms, s) by {
        lemma_latest_after_appended(before.revisions(s), ms, s, crate::runtime::pass_hash(1));
    }
}

/// A refused batch leaves the index as it was.
pub proof fn law_refused_batch_changes_nothing(
    before: TemporalIndex,
    after: TemporalIndex,
    ms: Seq<KnowledgeMutation>,
    r: Result<Vec<crate::base::CommitReceipt>, String>,
)
    requires
        VantageRuntime::transaction_outcome(before, after, ms, r),
        r is Err,
    ensures
        after == before,
{
}

/// History is append-only: whatever a batch does, the earlier revisions of
/// every resource stay, in order, at the front of its history.
pub proof fn law_history_append_only(
    before: TemporalIndex,
    after: TemporalIndex,
    ms: Seq<KnowledgeMutation>,
    r: Result<Vec<crate::base::CommitReceipt>, String>,
)
    requires
        VantageRuntime::transaction_outcome(before, after, ms, r),
    ensures
        forall|s: Seq<char>| #![auto] after.revisions(s).len() >= before.revisions(s).len()
            && after.revisions(s).take(before.revisions(s).len() as int) == before.revisions(s),
{
    assert forall|s: Seq<char>| #![auto] after.revisions(s).len() >= before.revisions(s).len()
        && after.revisions(s).take(before.revisions(s).len() as int) == before.revisions(s) by {
        if r is Ok {
            let b = before.revisions(s);
            let a = appended(ms, s, crate::runtime::pass_hash(1));
            assert((b + a).take(b.len() as int) =~= b);
        } else {
            assert(after.revisions(s).take(before.revisions(s).len() as int) =~= before.revisions(s));
        }
    }
}

/// A resource that exists cannot be inserted again: the insertion is refused
/// and the index stays as it was.
pub proof fn law_existing_resource_not_reinserted(
    before: TemporalIndex,
    after: TemporalIndex,
    m: KnowledgeMutation,
    r: Result<Vec<crate::base::CommitReceipt>, String>,
)
    requires
        VantageRuntime::transaction_outcome(before, after, seq![m], r),
        m.op is Insert,
        before.spec_read(m.op.target()) is Some,
    ensures
        r is Err,
        after == before,
{
    let ms = seq![m];
    assert(ms.take(0) =~= Seq::<KnowledgeMutation>::empty());
    assert(crate::runtime::conflicts_at(before, ms, 0));
}

/// Sequence numbers never go back: scanning envelopes accepts at most all of
/// them and leaves a last sequence at or above the one it started from.
pub proof fn law_sequence_never_decreases(es: Seq<ExecutionEnvelope>, epoch: EpochId, last: u64)
    ensures
        envelope_scan(es, epoch, last).1 >= last,
        envelope_scan(es, epoch, last).0 <= es.len(),
    decreases es.len(),
{
    if !(es.len() == 0 || es[0].epoch != epoch || es[0].sequence <= last) {
        law_sequence_never_decreases(es.drop_first(), epoch, es[0].sequence);
    }
}

/// Revoking an identity and then lifting the revocation leaves it not
/// revoked, and every other identity as it was before both.
pub proof fn law_revoke_then_unrevoke(
    start: RevocationRegistry,
    revoked: RevocationRegistry,
    lifted: RevocationRegistry,
    id: Seq<char>,
)
    requires
        revoked.spec_revoked() == start.spec_revoked().insert(id),
        lifted.spec_revoked() == revoked.spec_revoked().remove(id),
    ensures
        revoked.spec_revoked().contains(id),
        !lifted.spec_revoked().contains(id),
        forall|s: Seq<char>| s != id ==> (lifted.spec_revoked().contains(s) == start.spec_revoked().contains(s)),
{
}

/// Every dependency edge of a compiled batch runs from a mutation to a later
/// one, so the batch order is an execution order.
pub proof fn law_dependency_edges_run_forward(ms: Seq<KnowledgeMutation>, i: int, upto: int)
    requires
        0 <= i < ms.len(),
        upto <= ms.len(),
    ensures
        forall|q: int| 0 <= q < edge_list(ms, i, upto).len() ==> exists|j: int|
            i < j < upto && (#[trigger] edge_list(ms, i, upto)[q]).0 == ms[i].mutation_id@
                && edge_list(ms, i, upto)[q].1 == ms[j].mutation_id@,
    decreases upto - i,
{
    if upto > i + 1 {
        law_dependency_edges_run_forward(ms, i, upto - 1);
        let prev = edge_list(ms, i, upto - 1);
        let cur = edge_list(ms, i, upto);
        assert forall|q: int| 0 <= q < cur.len() implies exists|j: int|
            i < j < upto && (#[trigger] cur[q]).0 == ms[i].mutation_id@ && cur[q].1 == ms[j].mutation_id@ by {
            if q < prev.len() {
                assert(cur[q] == prev[q]);
                let j = choose|j: int| i < j < upto - 1 && prev[q].0 == ms[i].mutation_id@
                    && prev[q].1 == ms[j].mutation_id@;
                assert(i < j < upto);
            } else {
                assert(cur[q].1 == ms[upto - 1].mutation_id@);
            }
        }
    }
}

/// Penalizing never raises a node's trust.
pub proof fn law_penalty_never_raises(ws: Seq<(NodeId, u64)>, node: Seq<char>, penalty: u64)
    ensures
        (if weight_in(ws, node) >= penalty { (weight_in(ws, node) - penalty) as u64 } else { 0u64 })
            <= weight_in(ws, node),
{
}

/// A node whose children commute gets the same canonical hash whatever the
/// order of its children: children carrying the same hash values, each as
/// many times, give the same hash.
pub proof fn law_commuting_children_hash_ignores_order(c: Commutativity, a: Seq<CafHash>, b: Seq<CafHash>)
    requires
        c != Commutativity::OrderSensitive,
        hash_values(a).to_multiset() == hash_values(b).to_multiset(),
    ensures
        built_hash_value(c, hash_values(a)) == built_hash_value(c, hash_values(b)),
{
    let va = hash_values(a);
    let vb = hash_values(b);
    vstd::seq_lib::to_multiset_len(va);
    vstd::seq_lib::to_multiset_len(vb);
    lemma_sort_values_props(va);
    lemma_sort_values_props(vb);
    lemma_sorted_unique(sort_values(va), sort_values(vb));
}

/// A name declared in the innermost scope resolves to its canonical name,
/// and every other name resolves as before.
pub proof fn law_declared_name_resolves(
    scopes: Seq<Map<Seq<char>, Seq<char>>>,
    name: Seq<char>,
    canonical: Seq<char>,
    other: Seq<char>,
)
    requires
        scopes.len() > 0,
        other != name,
    ensures
        resolve_in(bind_innermost(scopes, name, canonical), name) == Some(canonical),
        resolve_in(bind_innermost(scopes, name, canonical), other) == resolve_in(scopes, other),
{
    let b = bind_innermost(scopes, name, canonical);
    assert(b.drop_last() =~= scopes.drop_last());
}

/// Declarations in a scope opened and then closed leave no trace: inside,
/// the innermost declaration shadows outer ones; once closed, every name
/// resolves as before the scope was opened.
pub proof fn law_closed_scope_forgets(
    scopes: Seq<Map<Seq<char>, Seq<char>>>,
    name: Seq<char>,
    canonical: Seq<char>,
    s: Seq<char>,
)
    ensures
        resolve_in(bind_innermost(scopes.push(Map::empty()), name, canonical), name) == Some(canonical),
        resolve_in(bind_innermost(scopes.push(Map::empty()), name, canonical).drop_last(), s) == resolve_in(scopes, s),
{
    let inner = bind_innermost(scopes.push(Map::empty()), name, canonical);
    assert(inner.drop_last() =~= scopes);
}

/// Composing with the identical relation, on either side, leaves an
/// identical or fast-forward relation as it is.
pub proof fn law_identical_is_identity(r: RelationView)
    requires
        rank_of(r) <= 1,
    ensures
        compose_view(RelationView::Identical, r) == r,
        compose_view(r, RelationView::Identical) == r,
{
}

/// An incompatible step makes the whole path incompatible.
pub proof fn law_incompatible_absorbs(reason: IncompatibilityReason, r: RelationView)
    ensures
        rank_of(compose_view(RelationView::Incompatible(reason), r)) == 3,
        rank_of(compose_view(r, RelationView::Incompatible(reason))) == 3,
{
}

/// A forked step makes a path without incompatible steps forked, at the
/// first fork's epoch.
pub proof fn law_fork_dominates(e: EpochId, l: u64, d: u64, r: RelationView)
    requires
        rank_of(r) <= 2,
    ensures
        compose_view(RelationView::Forked(e, l, d), r) == RelationView::Forked(e, 0, 0),
        rank_of(compose_view(r, RelationView::Forked(e, l, d))) == 2,
{
}

/// Two fast-forwards chain into one from the first's behind node to the
/// second's ahead node, at the earlier of their common epochs.
pub proof fn law_fast_forwards_chain(
    a1: Seq<char>, b1: Seq<char>, e1: EpochId, c1: Seq<EpochId>,
    a2: Seq<char>, b2: Seq<char>, e2: EpochId, c2: Seq<EpochId>,
)
    ensures
        compose_view(RelationView::FastForward(a1, b1, e1, c1), RelationView::FastForward(a2, b2, e2, c2))
            == RelationView::FastForward(a2, b1, if e1.0 <= e2.0 { e1 } else { e2 }, Seq::empty()),
{
}

proof fn lemma_name_index_points_at(names: Seq<Seq<char>>, name: Seq<char>)
    ensures
        name_index(names, name) matches Some(i) ==> 0 <= i < names.len() && names[i] == name,
    decreases names.len(),
{
    if names.len() > 0 {
        lemma_name_index_points_at(names.drop_last(), name);
    }
}

/// Interning reads back and is idempotent: once a name is interned, its
/// canonical form stands at the index handed out, and interning the name
/// again finds that same index and leaves the interned names as they are.
pub proof fn law_intern_reads_back(names: Seq<Seq<char>>, raw: Seq<char>)
    ensures
        ({
            let c = canonical_fqn(raw);
            let (after, i) = match name_index(names, c) {
                Some(i) => (names, i),
                None => (names.push(c), names.len() as int),
            };
            &&& 0 <= i < after.len()
            &&& after[i] == c
            &&& name_index(after, c) == Some(i)
        }),
{
    let c = canonical_fqn(raw);
    lemma_name_index_points_at(names, c);
    if name_index(names, c) is None {
        assert(names.push(c).drop_last() =~= names);
    }
}

/// A stake settled at par undoes its escrow: once a stake that the capital
/// available covers is put in escrow and then settles with a payout equal
/// to it, the account holds the total capital and the escrow it held before.
pub proof fn law_stake_at_par_restores_account(total: u64, escrowed: u64, stake: u64)
    requires
        escrowed + stake <= total,
    ensures
        settled_total(total, stake, stake) == total,
        released_escrow((escrowed + stake) as u64, stake) == escrowed,
{
}

/// Using committed state never costs more than inference alone: on the same
/// operations, inference alone reads no state and commits nothing, and
/// infers once per operation other than a commit; with state, every such
/// operation is either inferred or answered by a state read, no more tokens
/// are spent, and every edit and commit is committed with its bytes.
pub proof fn law_state_cache_saves_inference(ops: Seq<OpView>)
    ensures
        ({
            let b = bench_tally(ops, Strategy::InferenceOnly);
            let v = bench_tally(ops, Strategy::StateCached);
            &&& b.2 == 0 && b.3 == 0 && b.4 == 0
            &&& b.0 == inferable_ops(ops)
            &&& v.0 + v.2 == b.0
            &&& v.1 <= b.1
            &&& v.3 == committing_ops(ops)
            &&& v.4 == committed_bytes(ops)
        }),
    decreases ops.len(),
{
    if ops.len() > 0 {
        law_state_cache_saves_inference(ops.drop_last());
    }
}

proof fn lemma_fork_epochs_filter(es: Seq<(int, int, RelationView)>)
    ensures
        fork_epochs_of(es) == es.filter(|e: (int, int, RelationView)| e.2 is Forked)
            .map_values(|e: (int, int, RelationView)| e.2->Forked_0),
    decreases es.len(),
{
    let p = |e: (int, int, RelationView)| e.2 is Forked;
    let f = |e: (int, int, RelationView)| e.2->Forked_0;
    if es.len() > 0 {
        lemma_fork_epochs_filter(es.drop_last());
        assert(es.drop_last().push(es.last()) =~= es);
        reveal(Seq::filter);
        assert(es.filter(p) == if p(es.last()) { es.drop_last().filter(p).push(es.last()) } else { es.drop_last().filter(p) });
        if p(es.last()) {
            assert(es.drop_last().filter(p).push(es.last()).map_values(f)
                =~= es.drop_last().filter(p).map_values(f).push(f(es.last())));
        }
    } else {
        assert(es.filter(p) =~= Seq::<(int, int, RelationView)>::empty());
        assert(es.filter(p).map_values(f) =~= Seq::<EpochId>::empty());
    }
}

/// A divergent federation names its forks: the fork epochs it lists are
/// those of the forked pairs of the closure, in closure order, and there is
/// at least one.
pub proof fn law_divergent_lists_closure_forks(g: ClosureGraph)
    ensures
        g.spec_classify() matches StateView::Divergent(fs) ==> {
            &&& fs.len() > 0
            &&& fs == g.spec_closure().filter(|e: (int, int, RelationView)| e.2 is Forked)
                .map_values(|e: (int, int, RelationView)| e.2->Forked_0)
        },
{
    lemma_fork_epochs_filter(g.spec_closure());
}

/// A proposal's score is three points per unit of its proposer's trust,
/// two per unit of sequence progress and one per unit of time, progress
/// and time each counted up to one hundred.
pub proof fn law_score_counts_capped_progress(ws: Seq<(NodeId, u64)>, p: EpochProposal)
    ensures
        proposal_score(ws, p) == 3 * weight_in(ws, p.proposer@)
            + 2 * (if p.min_sequence <= 100 { p.min_sequence as int } else { 100int })
            + (if p.cutoff_time.lamport <= 100 { p.cutoff_time.lamport as int } else { 100int }),
{
}

/// More sequence progress or a later cutoff never lowers a proposal's
/// score, and past one hundred neither counts for more.
pub proof fn law_score_monotone(ws: Seq<(NodeId, u64)>, p: EpochProposal, seq: u64, time: u64)
    requires
        p.min_sequence <= seq,
        p.cutoff_time.lamport <= time,
    ensures
        proposal_score(ws, p) <= proposal_score(ws, EpochProposal { min_sequence: seq, cutoff_time: LogicalTime { lamport: time }, ..p }),
        seq >= 100 && time >= 100 ==> proposal_score(ws, EpochProposal { min_sequence: seq, cutoff_time: LogicalTime { lamport: time }, ..p })
            == proposal_score(ws, EpochProposal { min_sequence: 100, cutoff_time: LogicalTime { lamport: 100 }, ..p }),
{
}

/// A fork or a fast-forward between two nodes sits at the lower of their
/// epochs, whichever side is ahead; the node ahead is the one at the
/// higher epoch, and in a fork it diverges by one epoch more.
pub proof fn law_alignment_at_lower_epoch(local: NodeView, remote: NodeView)
    requires
        alignment_defined(local, remote),
    ensures
        ({
            let lo = if local.epoch.0 < remote.epoch.0 { local.epoch } else { remote.epoch };
            &&& alignment_of(local, remote) matches RelationView::Forked(fe, ld, rd) ==> {
                &&& fe == lo
                &&& local.epoch.0 != remote.epoch.0
                &&& !same_commitment(local.commit_hash, remote.commit_hash)
                &&& (local.epoch.0 > remote.epoch.0 ==> ld == rd + 1)
                &&& (local.epoch.0 < remote.epoch.0 ==> rd == ld + 1)
            }
            &&& alignment_of(local, remote) matches RelationView::FastForward(ahead, behind, ce, _) ==> {
                &&& ce == lo
                &&& (local.epoch.0 > remote.epoch.0 ==> ahead == local.node_id@ && behind == remote.node_id@)
                &&& (local.epoch.0 < remote.epoch.0 ==> ahead == remote.node_id@ && behind == local.node_id@)
            }
        }),
{
}

/// How a later mutation depends on an earlier one, from what each reads
/// and writes: reading what the earlier one wrote is a read after write;
/// otherwise writing what it read is a write after read; otherwise writing
/// what it wrote is a write after write; with nothing in common there is
/// no dependency.
pub proof fn law_dependency_from_accesses(a: KnowledgeMutation, b: KnowledgeMutation)
    ensures
        !spec_writes(a).intersect(spec_reads(b)).is_empty() ==> dependency(a, b) == Some(DependencyType::ReadAfterWrite),
        spec_writes(a).intersect(spec_reads(b)).is_empty() && !spec_reads(a).intersect(spec_writes(b)).is_empty()
            ==> dependency(a, b) == Some(DependencyType::WriteAfterRead),
        spec_writes(a).intersect(spec_reads(b)).is_empty() && spec_reads(a).intersect(spec_writes(b)).is_empty()
            && !spec_writes(a).intersect(spec_writes(b)).is_empty() ==> dependency(a, b) == Some(DependencyType::WriteAfterWrite),
        spec_writes(a).intersect(spec_reads(b)).is_empty() && spec_reads(a).intersect(spec_writes(b)).is_empty()
            && spec_writes(a).intersect(spec_writes(b)).is_empty() ==> dependency(a, b) is None,
{
}

/// The same, by operation: every mutation writes its target and a delete
/// also reads it, so on one resource a later delete reads after write, a
/// later insert after a delete writes after read, and two inserts write
/// after write; on different resources there is no dependency.
pub proof fn law_dependency_by_operation(a: KnowledgeMutation, b: KnowledgeMutation)
    ensures
        a.op.target() != b.op.target() ==> dependency(a, b) is None,
        a.op.target() == b.op.target() && b.op is Delete ==> dependency(a, b) == Some(DependencyType::ReadAfterWrite),
        a.op.target() == b.op.target() && b.op is Insert && a.op is Delete ==> dependency(a, b) == Some(DependencyType::WriteAfterRead),
        a.op.target() == b.op.target() && b.op is Insert && a.op is Insert ==> dependency(a, b) == Some(DependencyType::WriteAfterWrite),
{
    let t = a.op.target();
    let u = b.op.target();
    if t != u {
        assert(spec_writes(a).intersect(spec_writes(b)) =~= Set::<Seq<char>>::empty());
        assert(spec_writes(a).intersect(spec_reads(b)) =~= Set::<Seq<char>>::empty());
        assert(spec_reads(a).intersect(spec_writes(b)) =~= Set::<Seq<char>>::empty());
    } else {
        assert(spec_writes(a).intersect(spec_writes(b)).contains(t));
        if b.op is Delete {
            assert(spec_writes(a).intersect(spec_reads(b)).contains(t));
        } else {
            assert(spec_writes(a).intersect(spec_reads(b)) =~= Set::<Seq<char>>::empty());
            if a.op is Delete {
                assert(spec_reads(a).intersect(spec_writes(b)).contains(t));
            } else {
                assert(spec_reads(a).intersect(spec_writes(b)) =~= Set::<Seq<char>>::empty());
            }
        }
    }
}

/// A cluster of bundles is exactly the bundles of its epoch and policy
/// snapshot, in order: bundles of another snapshot never count toward it.
pub proof fn law_cluster_is_same_epoch_and_snapshot(bs: Seq<EpochCandidateBundle>, e: EpochId, s: u64)
    ensures
        cluster_of(bs, e, s) == bs.filter(|b: EpochCandidateBundle| b.epoch == e && b.quorum.policy_snapshot == s),
        forall|k: int| 0 <= k < cluster_of(bs, e, s).len() ==> (#[trigger] cluster_of(bs, e, s)[k]).epoch == e
            && cluster_of(bs, e, s)[k].quorum.policy_snapshot == s,
    decreases bs.len(),
{
    let p = |b: EpochCandidateBundle| b.epoch == e && b.quorum.policy_snapshot == s;
    reveal(Seq::filter);
    if bs.len() > 0 {
        law_cluster_is_same_epoch_and_snapshot(bs.drop_last(), e, s);
        assert(bs.drop_last().push(bs.last()) =~= bs);
        assert(bs.filter(p) == if p(bs.last()) { bs.drop_last().filter(p).push(bs.last()) } else { bs.drop_last().filter(p) });
        let c = cluster_of(bs, e, s);
        let d = cluster_of(bs.drop_last(), e, s);
        assert forall|k: int| 0 <= k < c.len() implies (#[trigger] c[k]).epoch == e && c[k].quorum.policy_snapshot == s by {
            if k < d.len() {
                assert(c[k] == d[k]);
            }
        }
    } else {
        assert(bs.filter(p) =~= Seq::<EpochCandidateBundle>::empty());
    }
}

/// Every bundle behind a meta-election agreement is for the agreement's
/// epoch and carries its quorum's policy snapshot.
pub proof fn law_agreement_cluster_shares_key(
    ws: Seq<(NodeId, u64)>,
    v: Seq<EpochCandidateBundle>,
    i: int,
    a: GlobalEpochAgreement,
)
    requires
        0 <= i < v.len(),
        is_cluster_agreement(ws, a, cluster_at(v, i), v[i].epoch),
    ensures
        forall|k: int| 0 <= k < cluster_at(v, i).len() ==> (#[trigger] cluster_at(v, i)[k]).epoch == a.epoch
            && cluster_at(v, i)[k].quorum.policy_snapshot == a.quorum.policy_snapshot,
{
    law_cluster_is_same_epoch_and_snapshot(v, v[i].epoch, v[i].quorum.policy_snapshot);
}

} // verus!
