//! How two nodes of a federation relate, and how relations compose.

use vstd::prelude::*;
use crate::base::{EpochId, NodeId};
use crate::vfp::{
    same_commitment, AlignmentAction, AlignmentHint, EpochDivergenceState, FederationView, IncompatibilityReason,
    NodeView,
};

verus! {

/// How a local node relates to a remote one. The divergences of a fork are
/// counts of epochs.
#[derive(Debug, PartialEq)]
pub enum AlignmentRelation {
    Identical,
    FastForward { ahead: NodeId, behind: NodeId, common_epoch: EpochId, catch_up_epochs: Vec<EpochId> },
    Forked { fork_epoch: EpochId, local_divergence: u64, remote_divergence: u64 },
    Incompatible { reason: IncompatibilityReason },
}

/// What an alignment step yields: the relation to a remote node, or the
/// hints that follow from it.
#[derive(Debug, Clone)]
pub enum AlignmentResult {
    Relation(AlignmentRelation),
    Hints(Vec<AlignmentHint>),
}

/// A relation with its identifiers and epochs as plain values.
pub enum RelationView {
    Identical,
    FastForward(Seq<char>, Seq<char>, EpochId, Seq<EpochId>),
    Forked(EpochId, u64, u64),
    Incompatible(IncompatibilityReason),
}

impl View for AlignmentRelation {
    type V = RelationView;

    open spec fn view(&self) -> RelationView {
        match self {
            AlignmentRelation::Identical => RelationView::Identical,
            AlignmentRelation::FastForward { ahead, behind, common_epoch, catch_up_epochs } =>
                RelationView::FastForward(ahead@, behind@, *common_epoch, catch_up_epochs@),
            AlignmentRelation::Forked { fork_epoch, local_divergence, remote_divergence } =>
                RelationView::Forked(*fork_epoch, *local_divergence, *remote_divergence),
            AlignmentRelation::Incompatible { reason } => RelationView::Incompatible(*reason),
        }
    }
}

fn copy_epoch_list(v: &Vec<EpochId>) -> (r: Vec<EpochId>)
    ensures
        r@ == v@,
{
    let mut out: Vec<EpochId> = Vec::new();
    let mut i: usize = 0;
    while i < v.len()
        invariant
            i <= v@.len(),
            out@ == v@.take(i as int),
        decreases v@.len() - i,
    {
        out.push(v[i]);
        assert(v@.take(i + 1) =~= v@.take(i as int).push(v@[i as int]));
        i = i + 1;
    }
    assert(v@.take(v@.len() as int) =~= v@);
    out
}

impl Clone for AlignmentRelation {
    fn clone(&self) -> (r: Self)
        ensures
            r@ == self@,
    {
        match self {
            AlignmentRelation::Identical => AlignmentRelation::Identical,
            AlignmentRelation::FastForward { ahead, behind, common_epoch, catch_up_epochs } => AlignmentRelation::FastForward {
                ahead: ahead.clone(),
                behind: behind.clone(),
                common_epoch: *common_epoch,
                catch_up_epochs: copy_epoch_list(catch_up_epochs),
            },
            AlignmentRelation::Forked { fork_epoch, local_divergence, remote_divergence } => AlignmentRelation::Forked {
                fork_epoch: *fork_epoch,
                local_divergence: *local_divergence,
                remote_divergence: *remote_divergence,
            },
            AlignmentRelation::Incompatible { reason } => AlignmentRelation::Incompatible { reason: *reason },
        }
    }
}

/// How strong a relation is: identical, then fast-forward, then forked,
/// then incompatible.
pub open spec fn rank_of(r: RelationView) -> u8 {
    match r {
        RelationView::Identical => 0,
        RelationView::FastForward(..) => 1,
        RelationView::Forked(..) => 2,
        RelationView::Incompatible(..) => 3,
    }
}

/// The epochs from `lo` to `hi`, both included, in order.
pub open spec fn epoch_span(lo: u64, hi: u64) -> Seq<EpochId> {
    Seq::new((hi - lo + 1) as nat, |i: int| EpochId((lo + i) as u64))
}

/// An epoch read as a signed 64-bit number, as a cast to `i64` reads it.
pub open spec fn signed_epoch(e: u64) -> int {
    if e <= i64::MAX { e as int } else { e as int - 0x1_0000_0000_0000_0000int }
}

/// The difference of two epochs read as signed 64-bit numbers.
pub open spec fn signed_gap(a: u64, b: u64) -> int {
    signed_epoch(a) - signed_epoch(b)
}

/// The divergence between two epochs: the size of their signed difference.
/// Where both epochs lie on one side of `i64::MAX` it is how far apart
/// they are.
pub open spec fn epoch_delta(a: u64, b: u64) -> int {
    let d = signed_gap(a, b);
    if d < 0 { -d } else { d }
}

/// The signed difference of the epochs fits in a signed 64-bit number
/// other than its least value, so that it has a size there.
pub open spec fn gap_measurable(a: u64, b: u64) -> bool {
    i64::MIN < signed_gap(a, b) <= i64::MAX
}

/// The epochs can be compared: they share a genesis and are equal, or
/// their difference can be measured.
pub open spec fn alignment_defined(local: NodeView, remote: NodeView) -> bool {
    same_commitment(remote.genesis_hash, local.genesis_hash) && local.epoch.0 != remote.epoch.0
        ==> gap_measurable(local.epoch.0, remote.epoch.0)
}

/// How `local` relates to `remote`: incompatible without a common genesis
/// or with different commitments at one epoch; identical with the same
/// commitment at one epoch; otherwise the node at the higher epoch is ahead:
/// fast-forward when the commitments agree (with the epochs to catch up),
/// a fork at the lower epoch when they differ, each side diverging by the
/// epochs' `epoch_delta`, the side ahead by one more.
pub open spec fn alignment_of(local: NodeView, remote: NodeView) -> RelationView {
    let le = local.epoch.0;
    let re = remote.epoch.0;
    let same = same_commitment(local.commit_hash, remote.commit_hash);
    let delta = epoch_delta(le, re);
    if !same_commitment(remote.genesis_hash, local.genesis_hash) {
        RelationView::Incompatible(IncompatibilityReason::GenesisMismatch)
    } else if le == re {
        if same {
            RelationView::Identical
        } else {
            RelationView::Incompatible(IncompatibilityReason::EpochCollision(local.epoch))
        }
    } else if le > re {
        if same {
            RelationView::FastForward(local.node_id@, remote.node_id@, remote.epoch, epoch_span((re + 1) as u64, le))
        } else {
            RelationView::Forked(remote.epoch, (delta + 1) as u64, delta as u64)
        }
    } else {
        if same {
            RelationView::FastForward(remote.node_id@, local.node_id@, local.epoch, epoch_span((le + 1) as u64, re))
        } else {
            RelationView::Forked(local.epoch, delta as u64, (delta + 1) as u64)
        }
    }
}

/// The divergence between two epochs whose difference can be measured.
fn divergence(a: u64, b: u64) -> (r: u64)
    requires
        gap_measurable(a, b),
    ensures
        r == epoch_delta(a, b),
        r < i64::MAX + 1,
{
    let sa: i128 = if a <= 0x7fff_ffff_ffff_ffffu64 { a as i128 } else { a as i128 - 0x1_0000_0000_0000_0000i128 };
    let sb: i128 = if b <= 0x7fff_ffff_ffff_ffffu64 { b as i128 } else { b as i128 - 0x1_0000_0000_0000_0000i128 };
    let d: i128 = sa - sb;
    if d < 0 { (0 - d) as u64 } else { d as u64 }
}

/// The epochs `lo..=hi`.
fn epochs_between(lo: u64, hi: u64) -> (r: Vec<EpochId>)
    requires
        1 <= lo <= hi,
    ensures
        r@ == epoch_span(lo, hi),
{
    let mut out: Vec<EpochId> = Vec::new();
    let n: u64 = hi - lo + 1;
    let mut i: u64 = 0;
    while i < n
        invariant
            i <= n,
            n == hi - lo + 1,
            1 <= lo <= hi,
            out@ == Seq::new(i as nat, |k: int| EpochId((lo + k) as u64)),
        decreases n - i,
    {
        out.push(EpochId(lo + i));
        assert(out@ =~= Seq::new((i + 1) as nat, |k: int| EpochId((lo + k) as u64)));
        i = i + 1;
    }
    assert(out@ =~= epoch_span(lo, hi));
    out
}

/// A hint with its target as characters and its action with identifiers as
/// characters.
pub open spec fn hint_view(h: AlignmentHint) -> (Seq<char>, ActionView) {
    (h.target@, action_view(h.action))
}

/// An action with its identifiers as characters.
pub enum ActionView {
    NoAction,
    CatchUpTo(Seq<char>),
    RebaseOnto(EpochId, Seq<char>),
    DeclareMisalignment(IncompatibilityReason),
}

pub open spec fn action_view(a: AlignmentAction) -> ActionView {
    match a {
        AlignmentAction::NoAction => ActionView::NoAction,
        AlignmentAction::CatchUpTo(n) => ActionView::CatchUpTo(n@),
        AlignmentAction::RebaseOnto { fork_epoch, remote_node } => ActionView::RebaseOnto(fork_epoch, remote_node@),
        AlignmentAction::DeclareMisalignment(r) => ActionView::DeclareMisalignment(r),
    }
}

/// The hint for the local node `local` toward the remote node `remote`
/// given their relation.
pub open spec fn hint_view_for(local: Seq<char>, remote: Seq<char>, r: RelationView) -> (Seq<char>, ActionView) {
    match r {
        RelationView::Identical => (local, ActionView::NoAction),
        RelationView::FastForward(_, behind, _, _) => if behind == local {
            (local, ActionView::CatchUpTo(remote))
        } else {
            (local, ActionView::NoAction)
        },
        RelationView::Forked(fork_epoch, _, _) => (local, ActionView::RebaseOnto(fork_epoch, remote)),
        RelationView::Incompatible(reason) => (local, ActionView::DeclareMisalignment(reason)),
    }
}

impl FederationView {
    /// How the local node relates to the node that reported `remote`.
    pub fn compute_alignment(&self, remote: &NodeView) -> (r: AlignmentRelation)
        requires
            alignment_defined(self.local, *remote),
        ensures
            r@ == alignment_of(self.local, *remote),
    {
        if !remote.genesis_hash.same_as(&self.local.genesis_hash) {
            return AlignmentRelation::Incompatible { reason: IncompatibilityReason::GenesisMismatch };
        }
        let local_epoch = self.local.epoch;
        let remote_epoch = remote.epoch;
        let same = self.local.commit_hash.same_as(&remote.commit_hash);
        if local_epoch.0 == remote_epoch.0 {
            if same {
                return AlignmentRelation::Identical;
            }
            return AlignmentRelation::Incompatible { reason: IncompatibilityReason::EpochCollision(local_epoch) };
        }
        if local_epoch.0 > remote_epoch.0 {
            let delta = divergence(local_epoch.0, remote_epoch.0);
            let ahead = self.local.node_id.clone();
            let behind = remote.node_id.clone();
            let catch_up = epochs_between(remote_epoch.0 + 1, local_epoch.0);
            if same {
                return AlignmentRelation::FastForward { ahead, behind, common_epoch: remote_epoch, catch_up_epochs: catch_up };
            }
            return AlignmentRelation::Forked { fork_epoch: remote_epoch, local_divergence: delta + 1, remote_divergence: delta };
        }
        let delta = divergence(local_epoch.0, remote_epoch.0);
        let ahead = remote.node_id.clone();
        let behind = self.local.node_id.clone();
        let catch_up = epochs_between(local_epoch.0 + 1, remote_epoch.0);
        if same {
            return AlignmentRelation::FastForward { ahead, behind, common_epoch: local_epoch, catch_up_epochs: catch_up };
        }
        AlignmentRelation::Forked { fork_epoch: local_epoch, local_divergence: delta, remote_divergence: delta + 1 }
    }

    /// The hint for the local node toward the node that reported `remote`.
    pub fn propose_alignment_for(&self, _divergence: &EpochDivergenceState, remote: &NodeView) -> (r: Vec<AlignmentHint>)
        requires
            alignment_defined(self.local, *remote),
        ensures
            r@.len() == 1,
            hint_view(r@[0]) == hint_view_for(self.local.node_id@, remote.node_id@, alignment_of(self.local, *remote)),
    {
        let relation = self.compute_alignment(remote);
        let local_id = self.local.node_id.clone();
        let remote_id = remote.node_id.clone();
        let hint = match relation {
            AlignmentRelation::Identical => AlignmentHint::no_action(local_id),
            AlignmentRelation::FastForward { behind, .. } => {
                if crate::text::str_eq(behind.0.as_str(), local_id.0.as_str()) {
                    AlignmentHint::catch_up(local_id, remote_id)
                } else {
                    AlignmentHint::no_action(local_id)
                }
            },
            AlignmentRelation::Forked { fork_epoch, .. } => AlignmentHint::rebase(local_id, fork_epoch, remote_id),
            AlignmentRelation::Incompatible { reason } => AlignmentHint {
                target: local_id,
                action: AlignmentAction::DeclareMisalignment(reason),
            },
        };
        let mut out: Vec<AlignmentHint> = Vec::new();
        out.push(hint);
        out
    }
}

/// The composition of two relations along a path: incompatible if either
/// is, else forked if either is (at the first fork's epoch, with no
/// divergence counted), else the other relation when one is identical, else
/// the fast-forward from the first's behind node to the second's ahead node
/// at the earlier common epoch.
pub open spec fn compose_view(a: RelationView, b: RelationView) -> RelationView {
    if rank_of(a) == 3 || rank_of(b) == 3 {
        RelationView::Incompatible(IncompatibilityReason::GenesisMismatch)
    } else if rank_of(a) == 2 || rank_of(b) == 2 {
        let fork_epoch = match a {
            RelationView::Forked(e, _, _) => e,
            _ => match b {
                RelationView::Forked(e, _, _) => e,
                _ => EpochId(0),
            },
        };
        RelationView::Forked(fork_epoch, 0, 0)
    } else if rank_of(a) == 0 {
        b
    } else if rank_of(b) == 0 {
        a
    } else {
        match (a, b) {
            (RelationView::FastForward(_, behind, e1, _), RelationView::FastForward(ahead, _, e2, _)) =>
                RelationView::FastForward(ahead, behind, if e1.0 <= e2.0 { e1 } else { e2 }, Seq::empty()),
            _ => a,
        }
    }
}

/// How strong a relation is (see `rank_of`).
pub fn rank(r: &AlignmentRelation) -> (k: u8)
    ensures
        k == rank_of(r@),
{
    match r {
        AlignmentRelation::Identical => 0,
        AlignmentRelation::FastForward { .. } => 1,
        AlignmentRelation::Forked { .. } => 2,
        AlignmentRelation::Incompatible { .. } => 3,
    }
}

/// Composes two relations along a path.
pub fn compose(a: &AlignmentRelation, b: &AlignmentRelation) -> (r: AlignmentRelation)
    ensures
        r@ == compose_view(a@, b@),
{
    let ra = rank(a);
    let rb = rank(b);
    if ra == 3 || rb == 3 {
        return AlignmentRelation::Incompatible { reason: IncompatibilityReason::GenesisMismatch };
    }
    if ra == 2 || rb == 2 {
        let fork_epoch = match a {
            AlignmentRelation::Forked { fork_epoch, .. } => *fork_epoch,
            _ => match b {
                AlignmentRelation::Forked { fork_epoch, .. } => *fork_epoch,
                _ => EpochId(0),
            },
        };
        return AlignmentRelation::Forked { fork_epoch, local_divergence: 0, remote_divergence: 0 };
    }
    if ra == 0 {
        return b.clone();
    }
    if rb == 0 {
        return a.clone();
    }
    match (a, b) {
        (AlignmentRelation::FastForward { behind, common_epoch: e1, .. }, AlignmentRelation::FastForward { ahead, common_epoch: e2, .. }) => {
            let common = if e1.0 <= e2.0 { *e1 } else { *e2 };
            AlignmentRelation::FastForward { ahead: ahead.clone(), behind: behind.clone(), common_epoch: common, catch_up_epochs: Vec::new() }
        },
        _ => a.clone(),
    }
}

} // verus!
