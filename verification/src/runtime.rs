//! The runtime kernel: a temporal index of resource revisions, atomic
//! transactions validated against invariants on a staged view, and the
//! epoch lifecycle with sequence-monotone admission of authorized payloads.

use vstd::prelude::*;
use vstd::string::*;
use std::time::SystemTime;
use crate::base::{
    opt_view, CommitReceipt, CommitResult, EpistemicInvariant, EpistemicReader, EpochId,
    EpochState, ExecutionEnvelope, InvariantContext, InvariantViolation, KnowledgeMutation,
    MutationOp, ResourceId, AgentId,
};
use crate::pek::EpistemicExecutor;
use crate::text::{debug_quoted, debug_string, decimal, u64_to_decimal};
use crate::tx::{has_duplicate_ids, TransactionDAG, TransactionalView, staged, cycle_message};

verus! {

/// One revision of a resource: its content (`None` for a deletion), when it
/// was made and the invariant hash it passed.
#[derive(Debug)]
pub struct Revision {
    pub payload: Option<String>,
    pub timestamp: SystemTime,
    pub invariant_hash: String,
}

impl Clone for Revision {
    fn clone(&self) -> (r: Self)
        ensures
            r == *self,
    {
        Revision {
            payload: match &self.payload {
                Some(p) => Some(p.clone()),
                None => None,
            },
            timestamp: self.timestamp,
            invariant_hash: self.invariant_hash.clone(),
        }
    }
}

/// The abstract form of a revision.
pub open spec fn rev_view(r: Revision) -> (Option<Seq<char>>, SystemTime, Seq<char>) {
    (opt_view(r.payload), r.timestamp, r.invariant_hash@)
}

/// The abstract form of a list of revisions.
pub open spec fn rev_views(v: Seq<Revision>) -> Seq<(Option<Seq<char>>, SystemTime, Seq<char>)> {
    v.map_values(|r: Revision| rev_view(r))
}

proof fn lemma_rev_views_push(v: Seq<Revision>, x: Revision)
    ensures
        rev_views(v.push(x)) == rev_views(v).push(rev_view(x)),
{
    assert(rev_views(v.push(x)) =~= rev_views(v).push(rev_view(x)));
}

/// Position of the first entry for `id`.
pub open spec fn find_entry(h: Seq<(ResourceId, Vec<Revision>)>, id: Seq<char>) -> Option<int>
    decreases h.len(),
{
    if h.len() == 0 {
        None
    } else if h[0].0@ == id {
        Some(0)
    } else {
        match find_entry(h.drop_first(), id) {
            Some(k) => Some(k + 1),
            None => None,
        }
    }
}

/// The revisions recorded for `id`, oldest first.
pub open spec fn history_of(h: Seq<(ResourceId, Vec<Revision>)>, id: Seq<char>) -> Seq<(Option<Seq<char>>, SystemTime, Seq<char>)> {
    match find_entry(h, id) {
        Some(k) => rev_views(h[k].1@),
        None => Seq::empty(),
    }
}

proof fn lemma_find_entry(h: Seq<(ResourceId, Vec<Revision>)>, id: Seq<char>)
    ensures
        find_entry(h, id) matches Some(k) ==> 0 <= k < h.len() && h[k].0@ == id
            && forall|q: int| 0 <= q < k ==> h[q].0@ != id,
        find_entry(h, id) is None ==> forall|q: int| 0 <= q < h.len() ==> h[q].0@ != id,
    decreases h.len(),
{
    if h.len() > 0 && h[0].0@ != id {
        lemma_find_entry(h.drop_first(), id);
        assert forall|q: int| 1 <= q < h.len() implies h[q] == h.drop_first()[q - 1] by {}
    }
}

proof fn lemma_find_entry_char(h: Seq<(ResourceId, Vec<Revision>)>, id: Seq<char>, k: int)
    requires
        0 <= k < h.len(),
        h[k].0@ == id,
        forall|q: int| 0 <= q < k ==> h[q].0@ != id,
    ensures
        find_entry(h, id) == Some(k),
    decreases h.len(),
{
    if k > 0 {
        lemma_find_entry_char(h.drop_first(), id, k - 1);
    }
}

/// Revisions of every resource.
#[derive(Default)]
pub struct TemporalIndex {
    pub history: Vec<(ResourceId, Vec<Revision>)>,
}

impl TemporalIndex {
    /// The revisions of `id`, oldest first.
    pub open spec fn revisions(&self, id: Seq<char>) -> Seq<(Option<Seq<char>>, SystemTime, Seq<char>)> {
        history_of(self.history@, id)
    }

    /// Appends a revision to the history of `id`.
    pub fn append(&mut self, id: ResourceId, rev: Revision)
        ensures
            forall|s: Seq<char>| #[trigger] final(self).revisions(s) == if s == id@ {
                old(self).revisions(s).push(rev_view(rev))
            } else {
                old(self).revisions(s)
            },
    {
        let ghost old_h = self.history@;
        let ghost rv = rev_view(rev);
        let mut k: usize = 0;
        while k < self.history.len()
            invariant
                self.history@ == old_h,
                old_h == old(self).history@,
                rv == rev_view(rev),
                k <= old_h.len(),
                forall|q: int| 0 <= q < k ==> old_h[q].0@ != id@,
            decreases old_h.len() - k,
        {
            if self.history[k].0.0 == id.0 {
                proof {
                    lemma_find_entry_char(old_h, id@, k as int);
                }
                let mut entry = self.history.remove(k);
                let ghost e0 = entry;
                entry.1.push(rev);
                let ghost e1 = entry;
                self.history.insert(k, entry);
                proof {
                    let h = self.history@;
                    assert(e0 == old_h[k as int]);
                    assert(h[k as int] == e1);
                    assert(e1.1@ == e0.1@.push(rev));
                    assert(rev_views(e1.1@) =~= rev_views(e0.1@).push(rv));
                    assert(h =~= old_h.update(k as int, h[k as int]));
                    lemma_find_entry_char(h, id@, k as int);
                    assert(history_of(h, id@) == rev_views(e1.1@));
                    assert(history_of(old_h, id@) == rev_views(e0.1@));
                    assert(history_of(h, id@) == history_of(old_h, id@).push(rv));
                    assert forall|s: Seq<char>| s != id@ implies #[trigger] history_of(h, s) == history_of(old_h, s) by {
                        lemma_find_entry(old_h, s);
                        match find_entry(old_h, s) {
                            Some(j) => {
                                assert(j != k);
                                lemma_find_entry_char(h, s, j);
                            },
                            None => {
                                lemma_find_entry(h, s);
                                if find_entry(h, s) is Some {
                                    let j = find_entry(h, s)->0;
                                    assert(h[j].0@ == s);
                                    assert(j != k);
                                    assert(old_h[j].0@ == s);
                                }
                            },
                        }
                    }
                    assert forall|s: Seq<char>| #[trigger] self.revisions(s) == if s == id@ {
                        old(self).revisions(s).push(rev_view(rev))
                    } else {
                        old(self).revisions(s)
                    } by {
                        if s == id@ {
                            assert(history_of(h, s) == history_of(old_h, s).push(rv));
                        } else {
                            assert(history_of(h, s) == history_of(old_h, s));
                        }
                    }
                }
                return;
            }
            k = k + 1;
        }
        let mut revs: Vec<Revision> = Vec::new();
        revs.push(rev);
        self.history.push((id, revs));
        proof {
            let h = self.history@;
            lemma_find_entry_char(h, id@, old_h.len() as int);
            lemma_find_entry(old_h, id@);
            lemma_rev_views_push(Seq::<Revision>::empty(), rev);
            assert(Seq::<Revision>::empty().push(rev) =~= h[old_h.len() as int].1@);
            assert(rev_views(Seq::<Revision>::empty()) =~= Seq::<(Option<Seq<char>>, SystemTime, Seq<char>)>::empty());
            assert(history_of(h, id@) == history_of(old_h, id@).push(rv));
            assert forall|s: Seq<char>| s != id@ implies #[trigger] history_of(h, s) == history_of(old_h, s) by {
                lemma_find_entry(old_h, s);
                match find_entry(old_h, s) {
                    Some(j) => {
                        lemma_find_entry_char(h, s, j);
                    },
                    None => {
                        lemma_find_entry(h, s);
                        if find_entry(h, s) is Some {
                            let j = find_entry(h, s)->0;
                            assert(j < old_h.len());
                        }
                    },
                }
            }
        }
    }

    /// The revisions of `id`, copied out.
    pub fn revisions_of(&self, id: &ResourceId) -> (r: Vec<Revision>)
        ensures
            rev_views(r@) == self.revisions(id@),
    {
        proof { lemma_find_entry(self.history@, id@); }
        let mut k: usize = 0;
        while k < self.history.len()
            invariant
                k <= self.history@.len(),
                forall|q: int| 0 <= q < k ==> self.history@[q].0@ != id@,
            decreases self.history@.len() - k,
        {
            if self.history[k].0.0 == id.0 {
                proof { lemma_find_entry_char(self.history@, id@, k as int); }
                let src = &self.history[k].1;
                let mut out: Vec<Revision> = Vec::new();
                let mut i: usize = 0;
                while i < src.len()
                    invariant
                        i <= src@.len(),
                        out@ == src@.subrange(0, i as int),
                    decreases src@.len() - i,
                {
                    out.push(src[i].clone());
                    i = i + 1;
                }
                assert(out@ =~= src@);
                return out;
            }
            k = k + 1;
        }
        Vec::new()
    }
}

/// The content of the latest revision, if any.
pub open spec fn latest(revs: Seq<(Option<Seq<char>>, SystemTime, Seq<char>)>) -> Option<Seq<char>> {
    if revs.len() == 0 { None } else { revs.last().0 }
}

impl EpistemicReader for TemporalIndex {
    open spec fn spec_read(&self, id: Seq<char>) -> Option<Seq<char>> {
        latest(self.revisions(id))
    }

    fn read_unit(&self, id: &ResourceId) -> (r: Option<String>) {
        proof { lemma_find_entry(self.history@, id@); }
        let mut k: usize = 0;
        while k < self.history.len()
            invariant
                k <= self.history@.len(),
                forall|q: int| 0 <= q < k ==> self.history@[q].0@ != id@,
            decreases self.history@.len() - k,
        {
            if self.history[k].0.0 == id.0 {
                proof { lemma_find_entry_char(self.history@, id@, k as int); }
                let revs = &self.history[k].1;
                if revs.len() == 0 {
                    return None;
                }
                return match &revs[revs.len() - 1].payload {
                    Some(p) => Some(p.clone()),
                    None => None,
                };
            }
            k = k + 1;
        }
        None
    }

    fn unit_exists(&self, id: &ResourceId) -> (r: bool) {
        let c = self.read_unit(id);
        c.is_some()
    }
}

/// The reason a duplicate insertion is refused.
pub open spec fn exists_reason(id: Seq<char>) -> Seq<char> {
    "Resource ResourceId("@ + debug_quoted(id) + ") already exists."@
}

/// Refuses an insertion of a resource that already exists.
pub struct NoDuplicateUnitInvariant;

impl EpistemicInvariant for NoDuplicateUnitInvariant {
    fn name(&self) -> (r: &str)
        ensures
            r@ == "NoDuplicateUnit"@,
    {
        "NoDuplicateUnit"
    }

    fn validate<'a, R: EpistemicReader>(&self, ctx: &InvariantContext<'a, R>) -> (r: Result<(), InvariantViolation>)
        ensures
            r is Err <==> (ctx.proposal.op is Insert
                && ctx.current_world_view.spec_read(ctx.proposal.op.target()) is Some),
            r matches Err(InvariantViolation::Contradiction { reason }) ==> reason@ == exists_reason(
                ctx.proposal.op.target()),
            r matches Err(v) ==> v is Contradiction,
    {
        match &ctx.proposal.op {
            MutationOp::Insert { resource_id, .. } => {
                if ctx.current_world_view.unit_exists(resource_id) {
                    let mut reason = String::from_str("Resource ResourceId(");
                    let q = debug_string(resource_id.0.as_str());
                    reason.append(q.as_str());
                    reason.append(") already exists.");
                    return Err(InvariantViolation::Contradiction { reason });
                }
                Ok(())
            },
            MutationOp::Delete { .. } => Ok(()),
        }
    }
}

/// A mutation with its temporal envelope, as the daemon hands it over.
pub struct ExecutionPayload {
    pub mutation: KnowledgeMutation,
    pub envelope: ExecutionEnvelope,
}

impl ExecutionPayload {
    pub fn new(mutation: KnowledgeMutation, envelope: ExecutionEnvelope) -> (r: Self)
        ensures
            r.mutation == mutation,
            r.envelope == envelope,
    {
        Self { mutation, envelope }
    }
}

/// Epoch and sequence state of the runtime.
#[derive(Debug, Clone, Copy)]
pub struct TemporalState {
    pub current_epoch: EpochId,
    pub last_sequence: u64,
    pub epoch_state: EpochState,
}

impl TemporalState {
    pub fn new(epoch: EpochId) -> (r: Self)
        ensures
            r.current_epoch == epoch,
            r.last_sequence == 0,
            r.epoch_state == EpochState::Active,
    {
        Self { current_epoch: epoch, last_sequence: 0, epoch_state: EpochState::Active }
    }
}

/// The content a mutation leaves: its payload for an insertion, nothing
/// for a deletion.
pub open spec fn payload_view(m: KnowledgeMutation) -> Option<Seq<char>> {
    match m.op {
        MutationOp::Insert { payload, .. } => Some(payload@),
        MutationOp::Delete { .. } => None,
    }
}

/// What the mutations of `ms` leave staged for `s`: the content of the last
/// one that targets `s`.
pub open spec fn sim_staged(ms: Seq<KnowledgeMutation>, s: Seq<char>) -> Option<Option<Seq<char>>>
    decreases ms.len(),
{
    if ms.len() == 0 {
        None
    } else if ms.last().op.target() == s {
        Some(payload_view(ms.last()))
    } else {
        sim_staged(ms.drop_last(), s)
    }
}

/// Whether `s` exists once the mutations of `ms` are staged over `idx`.
pub open spec fn visible(idx: TemporalIndex, ms: Seq<KnowledgeMutation>, s: Seq<char>) -> Option<Seq<char>> {
    match sim_staged(ms, s) {
        Some(c) => c,
        None => idx.spec_read(s),
    }
}

/// Mutation `k` inserts a resource that already exists at its turn.
pub open spec fn conflicts_at(idx: TemporalIndex, ms: Seq<KnowledgeMutation>, k: int) -> bool {
    0 <= k < ms.len() && ms[k].op is Insert && visible(idx, ms.take(k), ms[k].op.target()) is Some
}

/// `k` is the first conflicting mutation.
pub open spec fn first_conflict_at(idx: TemporalIndex, ms: Seq<KnowledgeMutation>, k: int) -> bool {
    conflicts_at(idx, ms, k) && forall|q: int| 0 <= q < k ==> !conflicts_at(idx, ms, q)
}

/// Some mutation of the batch conflicts.
pub open spec fn has_conflict(idx: TemporalIndex, ms: Seq<KnowledgeMutation>) -> bool {
    exists|k: int| conflicts_at(idx, ms, k)
}

/// The message of a batch aborted at mutation `id` whose insertion of
/// resource `r` conflicts.
pub open spec fn abort_message(id: Seq<char>, r: Seq<char>) -> Seq<char> {
    "Aborted at MutationId("@ + debug_quoted(id) + "): Contradiction { reason: "@
        + debug_quoted(exists_reason(r)) + " }"@
}

/// The invariant hash recorded by a runtime holding `n` invariants.
pub open spec fn pass_hash(n: nat) -> Seq<char> {
    "sha256:pass:"@ + decimal(n)
}

/// The revisions a batch appends to the history of `s`, in order.
pub open spec fn appended(ms: Seq<KnowledgeMutation>, s: Seq<char>, hash: Seq<char>) -> Seq<(Option<Seq<char>>, SystemTime, Seq<char>)>
    decreases ms.len(),
{
    if ms.len() == 0 {
        Seq::empty()
    } else if ms.last().op.target() == s {
        appended(ms.drop_last(), s, hash).push((payload_view(ms.last()), ms.last().timestamp, hash))
    } else {
        appended(ms.drop_last(), s, hash)
    }
}

/// The receipt of mutation `m` carries its identifier, actor and time.
pub open spec fn receipt_for(r: CommitReceipt, m: KnowledgeMutation, hash: Seq<char>) -> bool {
    &&& r.tx_id@ == m.mutation_id@
    &&& r.actor == m.actor
    &&& r.timestamp == m.timestamp
    &&& r.invariant_hash@ == hash
}

/// The debug name of an epoch state.
pub open spec fn state_name(s: EpochState) -> Seq<char> {
    match s {
        EpochState::Active => "Active"@,
        EpochState::Locked => "Locked"@,
        EpochState::Committed => "Committed"@,
    }
}

/// `EpochId(n)` as `{:?}` renders it.
pub open spec fn epoch_debug(e: EpochId) -> Seq<char> {
    "EpochId("@ + decimal(e.0 as nat) + ")"@
}

pub open spec fn lock_refusal(e: EpochId, s: EpochState) -> Seq<char> {
    "Cannot lock epoch "@ + epoch_debug(e) + ": state is "@ + state_name(s)
}

pub open spec fn commit_refusal(e: EpochId, s: EpochState) -> Seq<char> {
    "Cannot commit epoch "@ + epoch_debug(e) + ": state is "@ + state_name(s)
}

pub open spec fn closed_epoch_refusal(e: EpochId, s: EpochState) -> Seq<char> {
    "Epoch "@ + epoch_debug(e) + " is "@ + state_name(s) + ": not accepting new payloads"@
}

pub open spec fn epoch_mismatch(expected: EpochId, got: EpochId) -> Seq<char> {
    "TIA-2 epoch mismatch: expected "@ + epoch_debug(expected) + ", got "@ + epoch_debug(got)
}

pub open spec fn sequence_violation(seq: u64, last: u64) -> Seq<char> {
    "TIA-2 sequence violation: "@ + decimal(seq as nat) + " <= last sequence "@ + decimal(last as nat)
}

/// Scans envelopes against the current epoch and last sequence: the number
/// accepted before the first mismatch, and the last sequence after them.
pub open spec fn envelope_scan(es: Seq<ExecutionEnvelope>, epoch: EpochId, last: u64) -> (nat, u64)
    decreases es.len(),
{
    if es.len() == 0 || es[0].epoch != epoch || es[0].sequence <= last {
        (0, last)
    } else {
        let (n, l) = envelope_scan(es.drop_first(), epoch, es[0].sequence);
        (n + 1, l)
    }
}

/// The runtime kernel.
pub struct VantageRuntime {
    index: TemporalIndex,
    invariants: [NoDuplicateUnitInvariant; 1],
    temporal: TemporalState,
}

impl VantageRuntime {
    /// The temporal index.
    pub closed spec fn spec_index(&self) -> TemporalIndex {
        self.index
    }

    /// Epoch and sequence state.
    pub closed spec fn spec_temporal(&self) -> TemporalState {
        self.temporal
    }

    /// The index (read-only).
    pub fn index(&self) -> (r: &TemporalIndex)
        ensures
            *r == self.spec_index(),
    {
        &self.index
    }

    /// The invariants every mutation is validated against.
    pub fn invariants(&self) -> (r: &[NoDuplicateUnitInvariant; 1])
        ensures
            r@.len() == 1,
    {
        &self.invariants
    }

    pub fn new() -> (r: Self)
        ensures
            r.spec_temporal() == TemporalState::new_spec(EpochId(1)),
            r.spec_index().history@.len() == 0,
    {
        let invariants = [NoDuplicateUnitInvariant];
        Self {
            index: TemporalIndex { history: Vec::new() },
            invariants,
            temporal: TemporalState::new(EpochId(1)),
        }
    }

    pub fn with_epoch(epoch: EpochId) -> (r: Self)
        ensures
            r.spec_temporal() == TemporalState::new_spec(epoch),
            r.spec_index().history@.len() == 0,
    {
        let invariants = [NoDuplicateUnitInvariant];
        Self {
            index: TemporalIndex { history: Vec::new() },
            invariants,
            temporal: TemporalState::new(epoch),
        }
    }

    /// Active becomes Locked: no new payloads, in-flight work may finish.
    pub fn lock_epoch(&mut self) -> (r: Result<EpochId, String>)
        ensures
            old(self).spec_temporal().epoch_state == EpochState::Active ==> {
                &&& r == Ok::<EpochId, String>(old(self).spec_temporal().current_epoch)
                &&& final(self).spec_temporal() == (TemporalState {
                    epoch_state: EpochState::Locked,
                    ..old(self).spec_temporal()
                })
            },
            old(self).spec_temporal().epoch_state != EpochState::Active ==> {
                &&& r matches Err(m) && m@ == lock_refusal(old(self).spec_temporal().current_epoch,
                    old(self).spec_temporal().epoch_state)
                &&& *final(self) == *old(self)
            },
            final(self).spec_index() == old(self).spec_index(),
    {
        match self.temporal.epoch_state {
            EpochState::Active => {
                self.temporal.epoch_state = EpochState::Locked;
                Ok(self.temporal.current_epoch)
            },
            _ => {
                let m = Self::state_message("Cannot lock epoch ", self.temporal.current_epoch, ": state is ", self.temporal.epoch_state, "");
                proof {
                    reveal_strlit("");
                    assert(m@ =~= lock_refusal(self.temporal.current_epoch, self.temporal.epoch_state));
                }
                Err(m)
            },
        }
    }

    /// A Locked epoch is sealed and `new_epoch` becomes Active with its
    /// sequence reset; the result names the sealed epoch.
    pub fn commit_epoch(&mut self, new_epoch: EpochId) -> (r: Result<CommitResult, String>)
        ensures
            old(self).spec_temporal().epoch_state == EpochState::Locked ==> {
                &&& r matches Ok(c) && c.epoch == old(self).spec_temporal().current_epoch
                    && c.success && c.ack_count == 1 && c.threshold == 1
                &&& final(self).spec_temporal() == TemporalState::new_spec(new_epoch)
            },
            old(self).spec_temporal().epoch_state != EpochState::Locked ==> {
                &&& r matches Err(m) && m@ == commit_refusal(old(self).spec_temporal().current_epoch,
                    old(self).spec_temporal().epoch_state)
                &&& *final(self) == *old(self)
            },
            final(self).spec_index() == old(self).spec_index(),
    {
        match self.temporal.epoch_state {
            EpochState::Locked => {
                let old_epoch = self.temporal.current_epoch;
                self.temporal.current_epoch = new_epoch;
                self.temporal.last_sequence = 0;
                self.temporal.epoch_state = EpochState::Active;
                Ok(CommitResult::new(old_epoch, true, 1, 1))
            },
            _ => {
                let m = Self::state_message("Cannot commit epoch ", self.temporal.current_epoch, ": state is ", self.temporal.epoch_state, "");
                proof {
                    reveal_strlit("");
                    assert(m@ =~= commit_refusal(self.temporal.current_epoch, self.temporal.epoch_state));
                }
                Err(m)
            },
        }
    }

    fn epoch_text(e: EpochId) -> (s: String)
        ensures
            s@ == epoch_debug(e),
    {
        let mut s = String::from_str("EpochId(");
        let d = u64_to_decimal(e.0);
        s.append(d.as_str());
        s.append(")");
        s
    }

    fn state_text(st: EpochState) -> (s: &'static str)
        ensures
            s@ == state_name(st),
    {
        match st {
            EpochState::Active => "Active",
            EpochState::Locked => "Locked",
            EpochState::Committed => "Committed",
        }
    }

    fn state_message(a: &str, e: EpochId, b: &str, st: EpochState, c: &str) -> (m: String)
        ensures
            m@ == a@ + epoch_debug(e) + b@ + state_name(st) + c@,
    {
        let mut m = String::from_str(a);
        let et = Self::epoch_text(e);
        m.append(et.as_str());
        m.append(b);
        m.append(Self::state_text(st));
        m.append(c);
        m
    }

    /// The outcome of admitting authorized payloads: refused without change
    /// unless the epoch is active; refused at the first envelope of another
    /// epoch or of a sequence not above the last one, keeping the last
    /// sequence the envelopes before it reached; otherwise the last sequence
    /// of the batch is kept and its mutations are committed as one
    /// transaction.
    pub open spec fn authorized_outcome(
        before: VantageRuntime,
        after: VantageRuntime,
        payloads: Seq<ExecutionPayload>,
        r: Result<Vec<CommitReceipt>, String>,
    ) -> bool {
            ({
                let t = before.spec_temporal();
                let es = payloads.map_values(|p: ExecutionPayload| p.envelope);
                let ms = payloads.map_values(|p: ExecutionPayload| p.mutation);
                let (n, l) = envelope_scan(es, t.current_epoch, t.last_sequence);
                if t.epoch_state != EpochState::Active {
                    &&& r matches Err(m) && m@ == closed_epoch_refusal(t.current_epoch, t.epoch_state)
                    &&& after.spec_temporal() == t
                    &&& after.spec_index() == before.spec_index()
                } else if n < es.len() {
                    &&& r matches Err(m) && m@ == (if es[n as int].epoch != t.current_epoch {
                        epoch_mismatch(t.current_epoch, es[n as int].epoch)
                    } else {
                        sequence_violation(es[n as int].sequence, l)
                    })
                    &&& after.spec_temporal() == (TemporalState { last_sequence: l, ..t })
                    &&& after.spec_index() == before.spec_index()
                } else {
                    &&& after.spec_temporal() == (TemporalState { last_sequence: l, ..t })
                    &&& Self::transaction_outcome(before.spec_index(), after.spec_index(), ms, r)
                }
            })
    }

    /// Admits authorized payloads: only an Active epoch accepts them; each
    /// envelope must carry the current epoch and a sequence above the last
    /// one, which it then becomes (also when a later envelope fails); the
    /// mutations of a batch whose envelopes all pass are committed as one
    /// transaction.
    pub fn commit_authorized(&mut self, mutations: Vec<ExecutionPayload>) -> (r: Result<Vec<CommitReceipt>, String>)
        ensures
            Self::authorized_outcome(*old(self), *final(self), mutations@, r),
    {
        if self.temporal.epoch_state != EpochState::Active {
            let m = Self::state_message("Epoch ", self.temporal.current_epoch, " is ", self.temporal.epoch_state, ": not accepting new payloads");
            return Err(m);
        }
        let ghost es = mutations@.map_values(|p: ExecutionPayload| p.envelope);
        let ghost t0 = self.temporal;
        assert(es.skip(0) =~= es);
        let mut k: usize = 0;
        while k < mutations.len()
            invariant
                es == mutations@.map_values(|p: ExecutionPayload| p.envelope),
                k <= es.len(),
                self.temporal.current_epoch == t0.current_epoch,
                self.temporal.epoch_state == t0.epoch_state,
                t0 == old(self).temporal,
                t0.epoch_state == EpochState::Active,
                self.index == old(self).spec_index(),
                self.invariants == old(self).invariants,
                envelope_scan(es, t0.current_epoch, t0.last_sequence) == ({
                    let (n, l) = envelope_scan(es.skip(k as int), t0.current_epoch, self.temporal.last_sequence);
                    ((n + k) as nat, l)
                }),
            decreases es.len() - k,
        {
            let env = mutations[k].envelope;
            proof {
                assert(es.skip(k as int)[0] == env);
                assert(es.skip(k as int).drop_first() =~= es.skip(k + 1));
            }
            proof {
                let rest = es.skip(k as int);
                if env.epoch != t0.current_epoch || env.sequence <= self.temporal.last_sequence {
                    assert(envelope_scan(rest, t0.current_epoch, self.temporal.last_sequence) == (0nat, self.temporal.last_sequence));
                }
            }
            if env.epoch.0 != self.temporal.current_epoch.0 {
                let mut m = String::from_str("TIA-2 epoch mismatch: expected ");
                let a = Self::epoch_text(self.temporal.current_epoch);
                m.append(a.as_str());
                m.append(", got ");
                let b = Self::epoch_text(env.epoch);
                m.append(b.as_str());
                proof {
                    let (n, l) = envelope_scan(es, t0.current_epoch, t0.last_sequence);
                    assert(n == k);
                    assert(l == self.temporal.last_sequence);
                    assert(es[k as int] == env);
                    assert(t0 == old(self).spec_temporal());
                    assert(m@ == epoch_mismatch(t0.current_epoch, env.epoch));
                }
                return Err(m);
            }
            if env.sequence <= self.temporal.last_sequence {
                let mut m = String::from_str("TIA-2 sequence violation: ");
                let a = u64_to_decimal(env.sequence);
                m.append(a.as_str());
                m.append(" <= last sequence ");
                let b = u64_to_decimal(self.temporal.last_sequence);
                m.append(b.as_str());
                proof {
                    let (n, l) = envelope_scan(es, t0.current_epoch, t0.last_sequence);
                    assert(n == k);
                    assert(l == self.temporal.last_sequence);
                    assert(es[k as int] == env);
                    assert(m@ == sequence_violation(env.sequence, l));
                }
                return Err(m);
            }
            self.temporal.last_sequence = env.sequence;
            k = k + 1;
        }
        proof {
            assert(es.skip(k as int).len() == 0);
        }
        let mut raw: Vec<KnowledgeMutation> = Vec::new();
        let mut payloads = mutations;
        let ghost ms = payloads@.map_values(|p: ExecutionPayload| p.mutation);
        let mut i: usize = 0;
        let n = payloads.len();
        // Take the payloads apart in order.
        while i < n
            invariant
                n == ms.len(),
                i <= n,
                payloads@.len() == n - i,
                forall|q: int| 0 <= q < n - i ==> #[trigger] payloads@[q].mutation == ms[q + i],
                raw@ == ms.take(i as int),
            decreases n - i,
        {
            let p = payloads.remove(0);
            raw.push(p.mutation);
            proof {
                assert(raw@ =~= ms.take(i + 1));
            }
            i = i + 1;
        }
        assert(raw@ =~= ms);
        self.commit_transaction(raw)
    }

    /// The outcome of committing `ms` as one transaction from `before`:
    /// refused when two mutations share an identifier or some insertion
    /// meets an existing resource, leaving the index unchanged; otherwise
    /// every mutation appends one revision to its resource and gets a
    /// receipt, in batch order.
    pub open spec fn transaction_outcome(
        before: TemporalIndex,
        after: TemporalIndex,
        ms: Seq<KnowledgeMutation>,
        r: Result<Vec<CommitReceipt>, String>,
    ) -> bool {
        let hash = pass_hash(1);
        if has_duplicate_ids(ms) {
            &&& r matches Err(m) && exists|i: int, j: int| 0 <= i < j < ms.len()
                && ms[i].mutation_id@ == ms[j].mutation_id@ && m@ == cycle_message(ms[j].mutation_id@)
            &&& after == before
        } else if has_conflict(before, ms) {
            &&& r matches Err(m) && exists|k: int| first_conflict_at(before, ms, k)
                && m@ == abort_message(ms[k].mutation_id@, ms[k].op.target())
            &&& after == before
        } else {
            &&& r matches Ok(receipts) && receipts@.len() == ms.len()
                && forall|k: int| 0 <= k < ms.len() ==> receipt_for(#[trigger] receipts@[k], ms[k], hash)
            &&& forall|s: Seq<char>| #[trigger] after.revisions(s) == before.revisions(s) + appended(ms, s, hash)
        }
    }

    /// Commits a batch atomically: all of it or none of it.
    pub fn commit_transaction(&mut self, mutations: Vec<KnowledgeMutation>) -> (r: Result<Vec<CommitReceipt>, String>)
        ensures
            Self::transaction_outcome(old(self).spec_index(), final(self).spec_index(), mutations@, r),
            final(self).spec_temporal() == old(self).spec_temporal(),
    {
        let ghost ms = mutations@;
        let dag = match TransactionDAG::compile(mutations) {
            Ok(d) => d,
            Err(e) => return Err(e),
        };
        assert(dag.mutations() =~= ms);
        let order = dag.topological_sort();
        let n = dag.nodes.len();
        let hash = Self::invariant_hash(self.invariants.len());
        let ghost idx0 = self.index;
        // Phase 1: stage every mutation on a view and validate it.
        let mut pending: Vec<(ResourceId, String, AgentId, Option<String>, SystemTime)> = Vec::new();
        {
            let mut view = TransactionalView::new(&self.index);
            let mut k: usize = 0;
            while k < n
                invariant
                    dag.built_from(ms),
                    ms == mutations@,
                    n == ms.len(),
                    k <= n,
                    order@.len() == n,
                    forall|q: int| 0 <= q < n ==> order@[q] == #[trigger] dag.nodes@[q].0,
                    *view.base == idx0,
                    self.index == idx0,
                    self.temporal == old(self).temporal,
                    forall|s: Seq<char>| #[trigger] staged(view.overlay@, s) == sim_staged(ms.take(k as int), s),
                    forall|q: int| 0 <= q < k ==> !conflicts_at(idx0, ms, q),
                    pending@.len() == k,
                    forall|q: int| 0 <= q < k ==> {
                        &&& (#[trigger] pending@[q]).0@ == ms[q].op.target()
                        &&& pending@[q].1@ == ms[q].mutation_id@
                        &&& pending@[q].2 == ms[q].actor
                        &&& opt_view(pending@[q].3) == payload_view(ms[q])
                        &&& pending@[q].4 == ms[q].timestamp
                    },
                decreases n - k,
            {
                let mutation = &dag.nodes[k].1.0;
                assert(*mutation == ms[k as int]);
                let ctx = InvariantContext { current_world_view: &view, proposal: mutation };
                let verdict = self.invariants[0].validate(&ctx);
                proof {
                    assert(view.spec_read(ms[k as int].op.target()) == visible(idx0, ms.take(k as int), ms[k as int].op.target()));
                }
                match verdict {
                    Ok(()) => {},
                    Err(e) => {
                        proof {
                            assert(conflicts_at(idx0, ms, k as int));
                            assert(first_conflict_at(idx0, ms, k as int));
                            assert(has_conflict(idx0, ms));
                        }
                        let reason = match e {
                            InvariantViolation::Contradiction { reason } => reason,
                            _ => String::new(),
                        };
                        let m = Self::abort_text(&order[k].0, &reason);
                        proof {
                            assert(order@[k as int] == dag.nodes@[k as int].0);
                            assert(reason@ == exists_reason(ms[k as int].op.target()));
                            assert(m@ == abort_message(ms[k as int].mutation_id@, ms[k as int].op.target()));
                            assert(!has_duplicate_ids(ms));
                            assert(self.index == old(self).index);
                            assert(Self::transaction_outcome(old(self).spec_index(), self.spec_index(), ms, Err(m)));
                            assert(ms == mutations@);
                        }
                        return Err(m);
                    },
                }
                proof {
                    assert(view.spec_read(ms[k as int].op.target()) == visible(idx0, ms.take(k as int), ms[k as int].op.target()));
                    assert(!conflicts_at(idx0, ms, k as int));
                }
                let ghost before_overlay = view.overlay@;
                let resource_id = match &mutation.op {
                    MutationOp::Insert { resource_id, payload } => {
                        view.stage_write(resource_id.clone(), payload.clone());
                        resource_id.clone()
                    },
                    MutationOp::Delete { resource_id } => {
                        view.stage_delete(resource_id.clone());
                        resource_id.clone()
                    },
                };
                proof {
                    assert forall|s: Seq<char>| #[trigger] staged(view.overlay@, s) == sim_staged(ms.take(k + 1), s) by {
                        assert(ms.take(k + 1).drop_last() =~= ms.take(k as int));
                        assert(ms.take(k + 1).last() == ms[k as int]);
                    }
                }
                let staged_content = match &mutation.op {
                    MutationOp::Insert { payload, .. } => Some(payload.clone()),
                    MutationOp::Delete { .. } => None,
                };
                pending.push((resource_id, mutation.mutation_id.0.clone(), mutation.actor.clone(), staged_content, mutation.timestamp));
                k = k + 1;
            }
        }
        proof {
            assert forall|q: int| !conflicts_at(idx0, ms, q) by {}
            assert(!has_conflict(idx0, ms));
        }
        // Phase 2: record every revision.
        let mut receipts: Vec<CommitReceipt> = Vec::new();
        let mut q: usize = 0;
        while q < n
            invariant
                n == ms.len(),
                ms == mutations@,
                q <= n,
                pending@.len() == n,
                hash@ == pass_hash(1),
                forall|j: int| 0 <= j < n ==> {
                    &&& (#[trigger] pending@[j]).0@ == ms[j].op.target()
                    &&& pending@[j].1@ == ms[j].mutation_id@
                    &&& pending@[j].2 == ms[j].actor
                    &&& opt_view(pending@[j].3) == payload_view(ms[j])
                    &&& pending@[j].4 == ms[j].timestamp
                },
                receipts@.len() == q,
                self.temporal == old(self).temporal,
                forall|j: int| 0 <= j < q ==> receipt_for(#[trigger] receipts@[j], ms[j], pass_hash(1)),
                forall|s: Seq<char>| #[trigger] self.index.revisions(s) == idx0.revisions(s) + appended(ms.take(q as int), s, pass_hash(1)),
            decreases n - q,
        {
            let entry = &pending[q];
            let revision = Revision {
                payload: match &entry.3 {
                    Some(p) => Some(p.clone()),
                    None => None,
                },
                timestamp: entry.4,
                invariant_hash: hash.clone(),
            };
            self.index.append(entry.0.clone(), revision);
            proof {
                assert forall|s: Seq<char>| #[trigger] self.index.revisions(s) == idx0.revisions(s) + appended(ms.take(q + 1), s, pass_hash(1)) by {
                    assert(ms.take(q + 1).drop_last() =~= ms.take(q as int));
                    assert(ms.take(q + 1).last() == ms[q as int]);
                    if s == ms[q as int].op.target() {
                        assert(idx0.revisions(s) + appended(ms.take(q + 1), s, pass_hash(1)) =~= (idx0.revisions(s)
                            + appended(ms.take(q as int), s, pass_hash(1))).push((payload_view(ms[q as int]), ms[q as int].timestamp, pass_hash(1))));
                    }
                }
            }
            receipts.push(CommitReceipt {
                tx_id: entry.1.clone(),
                actor: entry.2.clone(),
                timestamp: entry.4,
                invariant_hash: hash.clone(),
            });
            q = q + 1;
        }
        proof {
            assert(ms.take(n as int) =~= ms);
        }
        Ok(receipts)
    }

    fn invariant_hash(count: usize) -> (s: String)
        ensures
            s@ == pass_hash(count as nat),
    {
        let mut s = String::from_str("sha256:pass:");
        let d = u64_to_decimal(count as u64);
        s.append(d.as_str());
        s
    }

    fn abort_text(id: &String, reason: &String) -> (m: String)
        ensures
            m@ == "Aborted at MutationId("@ + debug_quoted(id@) + "): Contradiction { reason: "@
                + debug_quoted(reason@) + " }"@,
    {
        let mut m = String::from_str("Aborted at MutationId(");
        let a = debug_string(id.as_str());
        m.append(a.as_str());
        m.append("): Contradiction { reason: ");
        let b = debug_string(reason.as_str());
        m.append(b.as_str());
        m.append(" }");
        m
    }
}

impl TemporalState {
    pub open spec fn new_spec(epoch: EpochId) -> TemporalState {
        TemporalState { current_epoch: epoch, last_sequence: 0, epoch_state: EpochState::Active }
    }
}

impl EpistemicReader for VantageRuntime {
    open spec fn spec_read(&self, id: Seq<char>) -> Option<Seq<char>> {
        self.spec_index().spec_read(id)
    }

    fn read_unit(&self, id: &ResourceId) -> (r: Option<String>) {
        self.index.read_unit(id)
    }

    fn unit_exists(&self, id: &ResourceId) -> (r: bool) {
        self.index.unit_exists(id)
    }
}

/// The outcome of applying one mutation as a batch of one: refused when it
/// inserts a resource that exists, leaving the index unchanged; otherwise
/// one revision is appended to its resource and its receipt returned.
pub open spec fn single_outcome(before: TemporalIndex, after: TemporalIndex, m: KnowledgeMutation, r: Result<CommitReceipt, String>) -> bool {
    let hash = pass_hash(1);
    if has_conflict(before, seq![m]) {
        &&& r matches Err(e) && e@ == abort_message(m.mutation_id@, m.op.target())
        &&& after == before
    } else {
        &&& r matches Ok(receipt) && receipt_for(receipt, m, hash)
        &&& forall|s: Seq<char>| #[trigger] after.revisions(s) == before.revisions(s) + appended(seq![m], s, hash)
    }
}

impl EpistemicExecutor for VantageRuntime {
    open spec fn spec_execute(&self, m: KnowledgeMutation, after: Self, r: Result<CommitReceipt, String>) -> bool {
        &&& after.spec_temporal() == self.spec_temporal()
        &&& single_outcome(self.spec_index(), after.spec_index(), m, r)
    }

    open spec fn spec_execute_transaction(&self, ms: Seq<KnowledgeMutation>, after: Self, r: Result<Vec<CommitReceipt>, String>) -> bool {
        &&& after.spec_temporal() == self.spec_temporal()
        &&& Self::transaction_outcome(self.spec_index(), after.spec_index(), ms, r)
    }

    fn execute(&mut self, mutation: KnowledgeMutation) -> (r: Result<CommitReceipt, String>) {
        let ghost m = mutation;
        let mut batch = Vec::new();
        batch.push(mutation);
        assert(batch@ =~= seq![m]);
        proof {
            assert(!has_duplicate_ids(seq![m]));
            if has_conflict(self.spec_index(), seq![m]) {
                let k = choose|k: int| conflicts_at(self.spec_index(), seq![m], k);
                assert(k == 0);
                assert forall|q: int| 0 <= q < 0 implies !conflicts_at(self.spec_index(), seq![m], q) by {}
                assert(first_conflict_at(self.spec_index(), seq![m], 0));
            }
        }
        let mut receipts = match self.commit_transaction(batch) {
            Ok(v) => v,
            Err(e) => {
                proof {
                    if has_conflict(old(self).spec_index(), seq![m]) {
                        let k = choose|k: int| first_conflict_at(old(self).spec_index(), seq![m], k)
                            && e@ == abort_message(seq![m][k].mutation_id@, seq![m][k].op.target());
                        assert(k == 0);
                    }
                }
                return Err(e);
            },
        };
        match receipts.pop() {
            Some(receipt) => Ok(receipt),
            None => Err(String::from_str("Empty receipt")),
        }
    }

    fn execute_transaction(&mut self, mutations: Vec<KnowledgeMutation>) -> (r: Result<Vec<CommitReceipt>, String>) {
        self.commit_transaction(mutations)
    }
}

} // verus!
