//! Properties of the light client that hold for every state and input,
//! stated over the contracts of its operations.
use vstd::prelude::*;

use crate::arith::le_value;
use crate::client::{
    batch_work, chunk_hash, chunk_prev, chunk_target, header_count, retarget_ok,
    BtcLightClientError, BtcLightClientState, BtcTxProof, HeadersAccepted, NetworkMode,
    RETARGET_INTERVAL,
};
use crate::header::header_chunk;
use crate::merkle::sha256d;

verus! {

/// A header that breaks a rule at position `i` makes every search for the
/// first broken rule from an earlier position find one.
proof fn lemma_error_found_from(s: BtcLightClientState, start: u64, raw: Seq<u8>, k: nat, i: nat)
    requires
        k <= i < header_count(raw),
        s.header_error(start, raw, i as int) is Some,
    ensures
        s.first_header_error(start, raw, k) is Some,
    decreases i - k,
{
    if k < i && s.header_error(start, raw, k as int) is None {
        lemma_error_found_from(s, start, raw, k + 1, i);
    }
}

/// A batch holding a header that breaks a rule is refused.
proof fn lemma_broken_header_rejected(s: BtcLightClientState, start: u64, raw: Seq<u8>, i: nat)
    requires
        i < header_count(raw),
        s.header_error(start, raw, i as int) is Some,
    ensures
        s.submit_error(start, raw) is Some,
{
    lemma_error_found_from(s, start, raw, 0, i);
}

/// After an accepted batch the tip hash is the double hash of the batch's
/// last serialized header, and the store holds that hash at the tip height.
pub proof fn lemma_tip_hash_is_header_hash(
    s: BtcLightClientState,
    start: u64,
    raw: Seq<u8>,
    next: BtcLightClientState,
    out: HeadersAccepted,
)
    requires
        s.accepted_into(start, raw, next, out),
        next.wf(),
    ensures
        next.latest_block_hash@ == sha256d(header_chunk(raw, header_count(raw) - 1)),
        next.block_hashes.lookup(next.latest_block_height as int).unwrap().hash@ == sha256d(
            header_chunk(raw, header_count(raw) - 1),
        ),
        out.new_tip.block_hash == next.latest_block_hash,
{
}

/// A header whose previous-hash field is not its predecessor's hash gets
/// the batch refused, whatever its proof of work.
pub proof fn lemma_broken_link_rejected(s: BtcLightClientState, start: u64, raw: Seq<u8>, i: nat)
    requires
        i < header_count(raw),
        chunk_prev(raw, i as int) != s.parent_hash(start, raw, i as int),
    ensures
        s.submit_error(start, raw) is Some,
{
    lemma_broken_header_rejected(s, start, raw, i);
}

/// A header whose hash, read as a little-endian number, exceeds the target
/// it encodes gets the batch refused, however well it links.
pub proof fn lemma_insufficient_pow_rejected(s: BtcLightClientState, start: u64, raw: Seq<u8>, i: nat)
    requires
        i < header_count(raw),
        le_value(chunk_hash(raw, i as int)) > chunk_target(raw, i as int),
    ensures
        s.submit_error(start, raw) is Some,
{
    lemma_broken_header_rejected(s, start, raw, i);
}

/// In Production mode a header opening a retarget period with a target of
/// four times its predecessor's or more gets the batch refused.
pub proof fn lemma_retarget_bound_rejected(s: BtcLightClientState, start: u64, raw: Seq<u8>, i: nat)
    requires
        s.network == NetworkMode::Production,
        i < header_count(raw),
        (start + i) % (RETARGET_INTERVAL as int) == 0,
        chunk_target(raw, i as int) >= 4 * s.parent_target(start, raw, i as int),
    ensures
        s.submit_error(start, raw) is Some,
{
    lemma_broken_header_rejected(s, start, raw, i);
}

/// At a period boundary a target one below four times the previous one
/// meets the retarget rule.
pub proof fn lemma_retarget_just_under_bound(height: int, prev: nat)
    requires
        height % (RETARGET_INTERVAL as int) == 0,
        prev >= 1,
    ensures
        retarget_ok(NetworkMode::Production, height, (4 * prev - 1) as nat, prev),
{
}

/// A batch carrying less work than the stretch of the accepted chain it
/// would replace is refused, however long it is.
pub proof fn lemma_lighter_branch_rejected(s: BtcLightClientState, start: u64, raw: Seq<u8>)
    requires
        batch_work(raw, header_count(raw)) < s.replaced_work(start),
    ensures
        s.submit_error(start, raw) is Some,
{
}

/// A well-formed batch whose headers all keep the rules and which carries
/// more work than what it replaces is accepted, even if it ends below the
/// current tip; once accepted, no stored height above its last header
/// remains.
pub proof fn lemma_heavier_branch_accepted(
    s: BtcLightClientState,
    start: u64,
    raw: Seq<u8>,
    next: BtcLightClientState,
    out: HeadersAccepted,
)
    requires
        raw.len() > 0,
        raw.len() % 80 == 0,
        start + header_count(raw) - 1 <= u64::MAX,
        (start + header_count(raw) - 1) / (RETARGET_INTERVAL as int) >= s.latest_block_height
            / RETARGET_INTERVAL,
        start >= 1,
        s.block_hashes.lookup(start - 1) is Some,
        s.first_header_error(start, raw, 0) is None,
        batch_work(raw, header_count(raw)) > s.replaced_work(start),
    ensures
        s.submit_error(start, raw) is None,
        s.accepted_into(start, raw, next, out) ==> forall|h: int|
            h > start + header_count(raw) - 1 ==> #[trigger] next.block_hashes.lookup(h) is None,
{
}

/// A proof is refused for want of confirmations exactly when the tip is
/// fewer than `min_confirmations` blocks above the claimed height.
pub proof fn lemma_confirmations_boundary(s: BtcLightClientState, block_height: u64, p: BtcTxProof)
    ensures
        (s.verify_error(block_height, p) == Some(BtcLightClientError::InsufficientConfirmations))
            <==> !(block_height <= s.latest_block_height && s.latest_block_height - block_height
            >= s.min_confirmations),
{
}

} // verus!
