//! Predictions about later epochs: the identifier of a claim and the hash
//! of a reality claim with the predictions it carries.

use vstd::prelude::*;
use vstd::string::*;
use vstd::utf8::encode_utf8;
use crate::base::{EpochId, NodeId};
use crate::text::{append_bytes, hex, le_bytes, le_value, push_le_bytes, u128_from_le_prefix, u128_to_hex};
use crate::types::hash::{sha256_digest, sha256_of};
use crate::vfp::CommitmentHash;

verus! {

/// A prediction as a reality claim's hash reads it: the epoch it is about,
/// the commitment it predicts there, and the bit pattern of its confidence
/// (the confidence's IEEE-754 bits, as `f64::to_bits` gives them).
#[derive(Debug, Clone, Copy)]
pub struct PredictionTerms {
    pub target_epoch: EpochId,
    pub claim_hash: CommitmentHash,
    pub confidence_bits: u64,
}

/// The bytes a claim identifier hashes: the predictor's name in UTF-8, the
/// target epoch as eight little-endian bytes, and the predicted commitment.
pub open spec fn claim_id_preimage(predictor: Seq<char>, target_epoch: u64, claim_hash: Seq<u8>) -> Seq<u8> {
    encode_utf8(predictor) + le_bytes(target_epoch as nat, 8) + claim_hash
}

/// A claim identifier: `claim:` followed by the first sixteen bytes of the
/// SHA-256 of the preimage, read as a little-endian number and written in
/// lower-case hexadecimal.
pub open spec fn claim_id_text(predictor: Seq<char>, target_epoch: u64, claim_hash: Seq<u8>) -> Seq<char> {
    "claim:"@ + hex(le_value(sha256_of(claim_id_preimage(predictor, target_epoch, claim_hash)).take(16)))
}

/// The bytes one prediction adds to a reality claim's preimage: its target
/// epoch as eight little-endian bytes, its commitment, and the eight
/// little-endian bytes of its confidence.
pub open spec fn prediction_bytes(p: PredictionTerms) -> Seq<u8> {
    le_bytes(p.target_epoch.0 as nat, 8) + p.claim_hash.0@ + le_bytes(p.confidence_bits as nat, 8)
}

/// The bytes of the predictions, in order.
pub open spec fn predictions_bytes(ps: Seq<PredictionTerms>) -> Seq<u8>
    decreases ps.len(),
{
    if ps.len() == 0 {
        Seq::empty()
    } else {
        predictions_bytes(ps.drop_last()) + prediction_bytes(ps.last())
    }
}

/// The bytes a reality claim hashes: the predictor's name in UTF-8, the
/// epoch as eight little-endian bytes, the commitment reached, and then
/// each prediction's bytes.
pub open spec fn reality_claim_preimage(
    predictor: Seq<char>,
    epoch: u64,
    commit_hash: Seq<u8>,
    predictions: Seq<PredictionTerms>,
) -> Seq<u8> {
    encode_utf8(predictor) + le_bytes(epoch as nat, 8) + commit_hash + predictions_bytes(predictions)
}

/// The identifier of the claim by `predictor` that the commitment at
/// `target_epoch` will be `claim_hash`.
pub fn prediction_claim_id(predictor: &NodeId, target_epoch: EpochId, claim_hash: &CommitmentHash) -> (r: String)
    ensures
        r@ == claim_id_text(predictor.0@, target_epoch.0, claim_hash.0@),
{
    let mut pre: Vec<u8> = Vec::new();
    append_bytes(&mut pre, predictor.0.as_str().as_bytes());
    push_le_bytes(&mut pre, target_epoch.0 as u128, 8);
    append_bytes(&mut pre, claim_hash.0.as_slice());
    assert(pre@ =~= claim_id_preimage(predictor.0@, target_epoch.0, claim_hash.0@));
    let digest = sha256_digest(pre.as_slice());
    let n = u128_from_le_prefix(digest.as_slice());
    let h = u128_to_hex(n);
    let mut s = String::from_str("claim:");
    s.append(h.as_str());
    s
}

/// The hash of the claim by `predictor` that the commitment at `epoch` is
/// `commit_hash`, with the predictions it carries: the SHA-256 of its
/// preimage.
pub fn reality_claim_hash(
    predictor: &NodeId,
    epoch: EpochId,
    commit_hash: &CommitmentHash,
    predictions: &[PredictionTerms],
) -> (r: CommitmentHash)
    ensures
        r.0@ == sha256_of(reality_claim_preimage(predictor.0@, epoch.0, commit_hash.0@, predictions@)),
{
    let mut pre: Vec<u8> = Vec::new();
    append_bytes(&mut pre, predictor.0.as_str().as_bytes());
    push_le_bytes(&mut pre, epoch.0 as u128, 8);
    append_bytes(&mut pre, commit_hash.0.as_slice());
    let ghost head = pre@;
    assert(predictions_bytes(predictions@.take(0)) =~= Seq::<u8>::empty());
    assert(head + Seq::<u8>::empty() =~= head);
    let mut i: usize = 0;
    while i < predictions.len()
        invariant
            i <= predictions@.len(),
            pre@ == head + predictions_bytes(predictions@.take(i as int)),
        decreases predictions@.len() - i,
    {
        let p = predictions[i];
        let ghost before = pre@;
        push_le_bytes(&mut pre, p.target_epoch.0 as u128, 8);
        append_bytes(&mut pre, p.claim_hash.0.as_slice());
        push_le_bytes(&mut pre, p.confidence_bits as u128, 8);
        assert(predictions@.take(i + 1).drop_last() =~= predictions@.take(i as int));
        assert(pre@ =~= before + prediction_bytes(p));
        assert(pre@ =~= head + predictions_bytes(predictions@.take(i + 1)));
        i = i + 1;
    }
    assert(predictions@.take(predictions@.len() as int) =~= predictions@);
    assert(pre@ =~= reality_claim_preimage(predictor.0@, epoch.0, commit_hash.0@, predictions@));
    CommitmentHash::from_bytes(pre.as_slice())
}

} // verus!
