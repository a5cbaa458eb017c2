//! The chain state and its two operations: extending (or reorganising) the
//! header chain, and verifying that a transaction output is buried in it.
use core::cmp::Ordering;
use vstd::prelude::*;

use crate::arith::{
    lemma_be_leading_zeros_all, lemma_bytes32_eq, add_work, be_value, compare_be, compact_target_value, le_value, lemma_be_bound,
    lemma_pow256_add, mul_in_place, pow256, reversed, target_from_bits, target_work, work_value,
};
use crate::header::{copy_range, header_chunk, le_u32_at, BlockHeader, HEADER_BYTES};
use crate::merkle::{double_sha256, merkle_proof_holds, sha256d, verify_merkle_proof};
use crate::script::{commitment_of, verify_output_script};
use crate::store::{BlockHashEntry, BlockHashStore};
use crate::tx::{decode_transaction, decoded_outputs, outputs_view, txid_of};

verus! {

/// Blocks per retarget period.
pub const RETARGET_INTERVAL: u64 = 2016;

/// How many recent heights the block-hash store keeps: the deepest reorg the
/// client can follow, two retarget periods.
pub const MAX_STORED_BLOCKS: usize = 4032;

/// Production enforces the retarget rules; Reduced (test networks, where
/// difficulty may reset at will) does not.
#[derive(Clone, Copy, Debug, PartialEq, Eq, Structural)]
pub enum NetworkMode {
    Production,
    Reduced,
}

#[derive(Clone, Copy, Debug, PartialEq, Eq, Structural)]
pub enum BtcLightClientError {
    /// The batch holds no header.
    NoHeaders,
    /// The batch is not a whole number of 80-byte headers.
    InvalidHeaderLength,
    /// The batch would end above the largest height.
    HeightOverflow,
    /// The batch ends in a retarget period older than the tip's.
    OldDifficultyPeriod,
    /// The block below the batch is not in the store.
    ParentBlockNotYetSubmitted,
    /// A header does not name its predecessor's hash.
    InvalidPrevHash,
    /// A header's hash exceeds the target it encodes.
    InvalidProofOfWork,
    /// A header's target breaks the retarget rules.
    InvalidDifficultyAdjustment,
    /// A batch that enters a new retarget period carries no more work than
    /// the chain it would replace.
    InsufficientChainWork,
    /// A batch within the tip's period carries no more work than the chain
    /// it would replace.
    NoProgress,
    /// The block is not yet buried deep enough.
    InsufficientConfirmations,
    /// The proof's header is not 80 bytes.
    InvalidHeaderFormat,
    /// The store holds no block at the claimed height.
    BlockNotFound,
    /// The proof's header is not the stored block at the claimed height.
    BlockHashMismatch,
    /// The raw transaction does not decode.
    InvalidTransactionFormat,
    /// The raw transaction's id is not the claimed id.
    TransactionIdMismatch,
    /// The Merkle path does not lead to the header's Merkle root.
    InvalidMerkleProof,
    /// The transaction has no output at the claimed index.
    InvalidOutputIndex,
    /// The output's value is below the expected amount.
    InsufficientAmount,
    /// The output's script does not commit to the expected hash.
    InvalidOutputScript,
    /// The caller is not the owner.
    UnauthorizedSigner,
}

/// The accepted tip after a batch.
#[derive(Clone, Copy, Debug, PartialEq, Eq)]
pub struct NewTip {
    pub block_height: u64,
    pub block_time: u32,
    pub block_hash: [u8; 32],
}

/// Heights whose stored hash a batch replaced.
#[derive(Clone, Copy, Debug, PartialEq, Eq)]
pub struct ChainReorg {
    pub reorg_count: u64,
    pub old_tip: [u8; 32],
    pub new_tip: [u8; 32],
}

/// What an accepted batch reports.
#[derive(Clone, Copy, Debug, PartialEq, Eq)]
pub struct HeadersAccepted {
    pub new_tip: NewTip,
    pub reorg: Option<ChainReorg>,
}

/// What a verified transaction reports.
#[derive(Clone, Copy, Debug, PartialEq, Eq)]
pub struct TransactionVerified {
    pub block_height: u64,
    pub tx_id: [u8; 32],
    pub amount: u64,
}

/// The durable record of a verified transaction.
#[derive(Clone, Copy, Debug, PartialEq, Eq)]
pub struct TxVerifiedState {
    pub tx_id: [u8; 32],
    pub block_height: u64,
    pub amount: u64,
}

/// An inclusion proof for one output of a transaction.
#[derive(Clone, Debug, PartialEq, Eq)]
pub struct BtcTxProof {
    pub block_header: Vec<u8>,
    pub tx_id: [u8; 32],
    pub tx_index: u32,
    pub merkle_proof: Vec<[u8; 32]>,
    pub raw_tx: Vec<u8>,
    pub output_index: u32,
    pub expected_amount: u64,
    pub expected_script_hash: [u8; 32],
}

/// The light client's state: the accepted tip, its policy, the recent block
/// hashes and the verified transactions.
pub struct BtcLightClientState {
    pub latest_block_hash: [u8; 32],
    pub latest_block_height: u64,
    pub latest_block_time: u32,
    /// Target of the tip block, big-endian; in Production mode the target of
    /// the tip's retarget period.
    pub latest_period_target: [u8; 32],
    pub network: NetworkMode,
    pub min_confirmations: u64,
    pub owner: [u8; 32],
    pub block_hashes: BlockHashStore,
    pub verified: Vec<TxVerifiedState>,
}

#[derive(Clone, Copy)]
struct HeaderInfo {
    hash: [u8; 32],
    target: [u8; 32],
    time: u32,
}

/// Number of whole headers in a batch.
pub open spec fn header_count(raw: Seq<u8>) -> nat {
    raw.len() / 80
}

/// Hash of the `i`-th header of a batch.
pub open spec fn chunk_hash(raw: Seq<u8>, i: int) -> Seq<u8> {
    sha256d(header_chunk(raw, i))
}

/// Previous-hash field of the `i`-th header.
pub open spec fn chunk_prev(raw: Seq<u8>, i: int) -> Seq<u8> {
    header_chunk(raw, i).subrange(4, 36)
}

/// Time field of the `i`-th header.
pub open spec fn chunk_time(raw: Seq<u8>, i: int) -> u32 {
    le_u32_at(header_chunk(raw, i), 68)
}

/// Target encoded in the `i`-th header.
pub open spec fn chunk_target(raw: Seq<u8>, i: int) -> nat {
    compact_target_value(le_u32_at(header_chunk(raw, i), 72))
}

/// Work of the first `i` headers of a batch.
pub open spec fn batch_work(raw: Seq<u8>, i: nat) -> nat
    decreases i,
{
    if i == 0 {
        0
    } else {
        batch_work(raw, (i - 1) as nat) + work_value(chunk_target(raw, i - 1))
    }
}

/// The retarget rule for a block at `height` with `target`, whose parent
/// has target `prev`: at a period boundary the target stays under four
/// times the previous one, elsewhere it equals it; Reduced mode takes any.
pub open spec fn retarget_ok(network: NetworkMode, height: int, target: nat, prev: nat) -> bool {
    network == NetworkMode::Reduced || (if height % (RETARGET_INTERVAL as int) == 0 {
        target < 4 * prev
    } else {
        target == prev
    })
}

impl BtcLightClientState {
    /// The store is well formed and not empty, its top is the tip, and its
    /// entry there is the tip's hash and target.
    pub open spec fn wf(&self) -> bool {
        &&& self.block_hashes.wf()
        &&& self.block_hashes@.blocks.len() >= 1
        &&& self.block_hashes.top() == self.latest_block_height
        &&& self.block_hashes.lookup(self.latest_block_height as int) == Some(
            BlockHashEntry { hash: self.latest_block_hash, target: self.latest_period_target },
        )
    }

    /// Hash the `i`-th header of a batch starting at `start` must name.
    pub open spec fn parent_hash(&self, start: u64, raw: Seq<u8>, i: int) -> Seq<u8> {
        if i == 0 {
            self.block_hashes.lookup(start - 1).unwrap().hash@
        } else {
            chunk_hash(raw, i - 1)
        }
    }

    /// Target of the block below the `i`-th header of a batch.
    pub open spec fn parent_target(&self, start: u64, raw: Seq<u8>, i: int) -> nat {
        if i == 0 {
            be_value(self.block_hashes.lookup(start - 1).unwrap().target@)
        } else {
            chunk_target(raw, i - 1)
        }
    }

    /// The rule the `i`-th header of a batch breaks, if any: linkage, then
    /// proof of work, then retargeting.
    pub open spec fn header_error(&self, start: u64, raw: Seq<u8>, i: int) -> Option<
        BtcLightClientError,
    > {
        if chunk_prev(raw, i) != self.parent_hash(start, raw, i) {
            Some(BtcLightClientError::InvalidPrevHash)
        } else if le_value(chunk_hash(raw, i)) > chunk_target(raw, i) {
            Some(BtcLightClientError::InvalidProofOfWork)
        } else if !retarget_ok(
            self.network,
            start + i,
            chunk_target(raw, i),
            self.parent_target(start, raw, i),
        ) {
            Some(BtcLightClientError::InvalidDifficultyAdjustment)
        } else {
            None
        }
    }

    /// The first rule broken by a header at position `i` or later.
    pub open spec fn first_header_error(&self, start: u64, raw: Seq<u8>, i: nat) -> Option<
        BtcLightClientError,
    >
        decreases header_count(raw) - i,
    {
        if i >= header_count(raw) {
            None
        } else if self.header_error(start, raw, i as int) is Some {
            self.header_error(start, raw, i as int)
        } else {
            self.first_header_error(start, raw, i + 1)
        }
    }

    /// Whether the `j`-th header of a batch replaces a different stored hash.
    pub open spec fn overwrites(&self, start: u64, raw: Seq<u8>, j: int) -> bool {
        match self.block_hashes.lookup(start + j) {
            Some(e) => e.hash@ != chunk_hash(raw, j),
            None => false,
        }
    }

    /// How many of the first `i` headers replace a different stored hash.
    pub open spec fn reorg_count(&self, start: u64, raw: Seq<u8>, i: nat) -> nat
        decreases i,
    {
        if i == 0 {
            0
        } else {
            self.reorg_count(start, raw, (i - 1) as nat) + if self.overwrites(
                start,
                raw,
                i - 1,
            ) {
                1nat
            } else {
                0nat
            }
        }
    }

    /// Work of the `count` stored blocks from height `lo` up.
    pub open spec fn stored_work(&self, lo: int, count: nat) -> nat
        decreases count,
    {
        if count == 0 {
            0
        } else {
            self.stored_work(lo, (count - 1) as nat) + work_value(
                be_value(self.block_hashes.lookup(lo + count - 1).unwrap().target@),
            )
        }
    }

    /// Work of the accepted chain from `start` to the tip: what a batch
    /// starting there would replace.
    pub open spec fn replaced_work(&self, start: u64) -> nat {
        if start > self.latest_block_height {
            0
        } else {
            self.stored_work(start as int, (self.latest_block_height - start + 1) as nat)
        }
    }

    /// Fork choice: the batch carries more work than what it replaces, or
    /// exactly the same blocks.
    pub open spec fn outweighs(&self, start: u64, raw: Seq<u8>) -> bool {
        let n = header_count(raw);
        ||| batch_work(raw, n) > self.replaced_work(start)
        ||| (batch_work(raw, n) == self.replaced_work(start) && self.reorg_count(start, raw, n)
            == 0)
    }

    /// Why a batch of headers starting at `start` is refused, if it is.
    pub open spec fn submit_error(&self, start: u64, raw: Seq<u8>) -> Option<BtcLightClientError> {
        let n = header_count(raw);
        let tip = start + n - 1;
        if raw.len() == 0 {
            Some(BtcLightClientError::NoHeaders)
        } else if raw.len() % 80 != 0 {
            Some(BtcLightClientError::InvalidHeaderLength)
        } else if tip > u64::MAX {
            Some(BtcLightClientError::HeightOverflow)
        } else if tip / (RETARGET_INTERVAL as int) < self.latest_block_height / RETARGET_INTERVAL {
            Some(BtcLightClientError::OldDifficultyPeriod)
        } else if start == 0 || self.block_hashes.lookup(start - 1) is None {
            Some(BtcLightClientError::ParentBlockNotYetSubmitted)
        } else if self.first_header_error(start, raw, 0) is Some {
            self.first_header_error(start, raw, 0)
        } else if !self.outweighs(start, raw) {
            if tip / (RETARGET_INTERVAL as int) > self.latest_block_height / RETARGET_INTERVAL {
                Some(BtcLightClientError::InsufficientChainWork)
            } else {
                Some(BtcLightClientError::NoProgress)
            }
        } else {
            None
        }
    }

    /// `next` and `out` are the state and report after accepting the batch:
    /// its last header is the tip, every stored height from `start` up holds
    /// the batch's block, heights below keep what they held (or were
    /// evicted), and nothing above the new tip remains.
    pub open spec fn accepted_into(
        &self,
        start: u64,
        raw: Seq<u8>,
        next: BtcLightClientState,
        out: HeadersAccepted,
    ) -> bool {
        let n = header_count(raw);
        let tip = start + n - 1;
        &&& next.latest_block_height == tip
        &&& next.latest_block_hash@ == chunk_hash(raw, n - 1)
        &&& next.latest_block_time == chunk_time(raw, n - 1)
        &&& be_value(next.latest_period_target@) == chunk_target(raw, n - 1)
        &&& next.network == self.network
        &&& next.min_confirmations == self.min_confirmations
        &&& next.owner == self.owner
        &&& next.verified@ == self.verified@
        &&& next.block_hashes@.capacity == self.block_hashes@.capacity
        &&& forall|h: int|
            #![trigger next.block_hashes.lookup(h)]
            next.block_hashes.lookup(h) is Some ==> h <= tip && (if h < start {
                next.block_hashes.lookup(h) == self.block_hashes.lookup(h)
            } else {
                next.block_hashes.lookup(h).unwrap().hash@ == chunk_hash(raw, h - start)
                    && be_value(next.block_hashes.lookup(h).unwrap().target@) == chunk_target(
                    raw,
                    h - start,
                )
            })
        &&& out.new_tip == NewTip {
            block_height: next.latest_block_height,
            block_time: next.latest_block_time,
            block_hash: next.latest_block_hash,
        }
        &&& (out.reorg is Some <==> self.reorg_count(start, raw, n) > 0)
        &&& (out.reorg matches Some(c) ==> c.reorg_count == self.reorg_count(start, raw, n)
            && c.old_tip == self.latest_block_hash && c.new_tip == next.latest_block_hash)
    }

    /// A client whose tip is the given block.
    pub fn initialize(
        block_height: u64,
        block_hash: [u8; 32],
        block_time: u32,
        expected_target: [u8; 32],
        is_testnet: bool,
        min_confirmations: u64,
        owner: [u8; 32],
    ) -> (r: Self)
        ensures
            r.wf(),
            r.latest_block_height == block_height,
            r.latest_block_hash == block_hash,
            r.latest_block_time == block_time,
            r.latest_period_target == expected_target,
            r.network == (if is_testnet {
                NetworkMode::Reduced
            } else {
                NetworkMode::Production
            }),
            r.min_confirmations == min_confirmations,
            r.owner == owner,
            r.verified@.len() == 0,
            r.block_hashes@.capacity == MAX_STORED_BLOCKS,
            r.block_hashes@.blocks == seq![
                BlockHashEntry { hash: block_hash, target: expected_target },
            ],
    {
        let entry = BlockHashEntry { hash: block_hash, target: expected_target };
        BtcLightClientState {
            latest_block_hash: block_hash,
            latest_block_height: block_height,
            latest_block_time: block_time,
            latest_period_target: expected_target,
            network: if is_testnet {
                NetworkMode::Reduced
            } else {
                NetworkMode::Production
            },
            min_confirmations,
            owner,
            block_hashes: BlockHashStore::new(MAX_STORED_BLOCKS, block_height, entry),
            verified: Vec::new(),
        }
    }
}

impl BtcLightClientState {
    /// Validates a batch of concatenated 80-byte headers whose first header
    /// sits at `block_height`, and commits it as the new tip, or refuses it
    /// and leaves the state as it was.
    pub fn submit_block_headers(&mut self, block_height: u64, headers: &[u8]) -> (r: Result<
        HeadersAccepted,
        BtcLightClientError,
    >)
        requires
            old(self).wf(),
        ensures
            final(self).wf(),
            r is Err <==> old(self).submit_error(block_height, headers@) is Some,
            r matches Err(e) ==> old(self).submit_error(block_height, headers@) == Some(e)
                && *final(self) == *old(self),
            r matches Ok(out) ==> old(self).accepted_into(block_height, headers@, *final(self), out),
    {
        let len = headers.len();
        if len == 0 {
            return Err(BtcLightClientError::NoHeaders);
        }
        if len % HEADER_BYTES != 0 {
            return Err(BtcLightClientError::InvalidHeaderLength);
        }
        let n: usize = len / HEADER_BYTES;
        let n64: u64 = n as u64;
        if block_height > u64::MAX - (n64 - 1) {
            return Err(BtcLightClientError::HeightOverflow);
        }
        let new_height: u64 = block_height + (n64 - 1);
        let old_period: u64 = self.latest_block_height / RETARGET_INTERVAL;
        let new_period: u64 = new_height / RETARGET_INTERVAL;
        if new_period < old_period {
            return Err(BtcLightClientError::OldDifficultyPeriod);
        }
        if block_height == 0 {
            return Err(BtcLightClientError::ParentBlockNotYetSubmitted);
        }
        let parent = match self.block_hashes.get(block_height - 1) {
            Ok(b) => b,
            Err(_) => {
                return Err(BtcLightClientError::ParentBlockNotYetSubmitted);
            },
        };
        let (infos, new_work, reorged) = match self.validate_batch(block_height, headers, parent) {
            Ok(v) => v,
            Err(e) => {
                return Err(e);
            },
        };
        let old_work = self.replaced_chain_work(block_height);
        let heavier = match compare_be(&new_work, &old_work) {
            Ordering::Greater => true,
            Ordering::Equal => reorged == 0,
            Ordering::Less => false,
        };
        if !heavier {
            if new_period > old_period {
                return Err(BtcLightClientError::InsufficientChainWork);
            } else {
                return Err(BtcLightClientError::NoProgress);
            }
        }
        let old_tip = self.latest_block_hash;
        self.commit_batch(block_height, &infos);
        let reorg = if reorged > 0 {
            Some(ChainReorg { reorg_count: reorged, old_tip, new_tip: self.latest_block_hash })
        } else {
            None
        };
        Ok(
            HeadersAccepted {
                new_tip: NewTip {
                    block_height: self.latest_block_height,
                    block_time: self.latest_block_time,
                    block_hash: self.latest_block_hash,
                },
                reorg,
            },
        )
    }

    /// Checks each header of a batch in order (linkage, proof of work,
    /// retargeting) and returns, for a batch that passes, each header's
    /// hash, target and time, the batch's work and how many stored hashes it
    /// would replace.
    fn validate_batch(&self, block_height: u64, headers: &[u8], parent: BlockHashEntry) -> (r:
        Result<(Vec<HeaderInfo>, [u8; 40], u64), BtcLightClientError>)
        requires
            self.wf(),
            headers@.len() > 0,
            headers@.len() % 80 == 0,
            1 <= block_height,
            block_height + header_count(headers@) - 1 <= u64::MAX,
            self.block_hashes.lookup(block_height - 1) == Some(parent),
        ensures
            r is Err <==> self.first_header_error(block_height, headers@, 0) is Some,
            r matches Err(e) ==> self.first_header_error(block_height, headers@, 0) == Some(e),
            r matches Ok((infos, work, reorged)) ==> {
                &&& infos@.len() == header_count(headers@)
                &&& forall|j: int|
                    #![trigger infos@[j]]
                    0 <= j < infos@.len() ==> infos@[j].hash@ == chunk_hash(headers@, j)
                        && be_value(infos@[j].target@) == chunk_target(headers@, j)
                        && infos@[j].time == chunk_time(headers@, j)
                &&& be_value(work@) == batch_work(headers@, header_count(headers@))
                &&& reorged == self.reorg_count(block_height, headers@, header_count(headers@))
            },
    {
        let ghost raw = headers@;
        let len = headers.len();
        let n: usize = len / HEADER_BYTES;
        proof {
            assert(80 * n <= len) by (nonlinear_arith)
                requires
                    n == len / 80,
            ;
            lemma_pow256_add(8, 32);
            reveal_with_fuel(pow256, 9);
            assert(pow256(8) == 0x1_0000_0000_0000_0000);
            lemma_be_bound(parent.target@);
        }
        let mut infos: Vec<HeaderInfo> = Vec::new();
        let mut prev_hash: [u8; 32] = parent.hash;
        let mut prev_target: [u8; 32] = parent.target;
        let mut new_work: [u8; 40] = [0u8; 40];
        let mut reorged: u64 = 0;
        let mut i: usize = 0;
        proof {
            assert(be_value(new_work@) == 0) by {
                lemma_be_leading_zeros_all(new_work@);
            }
        }
        while i < n
            invariant
                self.wf(),
                raw == headers@,
                len == headers@.len(),
                n == header_count(raw),
                80 * n <= len,
                n <= usize::MAX,
                1 <= block_height,
                block_height + n - 1 <= u64::MAX,
                self.block_hashes.lookup(block_height - 1) == Some(parent),
                0 <= i <= n,
                infos@.len() == i,
                forall|j: int|
                    #![trigger infos@[j]]
                    0 <= j < i ==> infos@[j].hash@ == chunk_hash(raw, j) && be_value(
                        infos@[j].target@,
                    ) == chunk_target(raw, j) && infos@[j].time == chunk_time(raw, j),
                prev_hash@ == self.parent_hash(block_height, raw, i as int),
                be_value(prev_target@) == self.parent_target(block_height, raw, i as int),
                self.first_header_error(block_height, raw, 0) == self.first_header_error(
                    block_height,
                    raw,
                    i as nat,
                ),
                be_value(new_work@) == batch_work(raw, i as nat),
                batch_work(raw, i as nat) <= i * (pow256(32) - 1),
                pow256(40) == 0x1_0000_0000_0000_0000 * pow256(32),
                reorged == self.reorg_count(block_height, raw, i as nat),
                reorged <= i,
            decreases n - i,
        {
            proof {
                assert(80 * i + 80 <= len) by (nonlinear_arith)
                    requires
                        i < n,
                        80 * n <= len,
                ;
            }
            let chunk = copy_range(headers, 80 * i, HEADER_BYTES);
            proof {
                assert(chunk@ == header_chunk(raw, i as int));
            }
            let header = match BlockHeader::parse(chunk.as_slice()) {
                Some(h) => h,
                None => {
                    proof {
                        assert(false);
                    }
                    return Err(BtcLightClientError::InvalidHeaderLength);
                },
            };
            let hash = double_sha256(chunk.as_slice());
            let target = target_from_bits(header.bits);
            let height: u64 = block_height + i as u64;
            proof {
                assert(header.prev_blockhash@ == chunk_prev(raw, i as int));
                assert(be_value(target@) == chunk_target(raw, i as int));
                assert(hash@ == chunk_hash(raw, i as int));
            }
            match compare_be(&header.prev_blockhash, &prev_hash) {
                Ordering::Equal => {},
                _ => {
                    proof {
                        self.lemma_first_error_at(block_height, raw, i as nat);
                    }
                    return Err(BtcLightClientError::InvalidPrevHash);
                },
            }
            let hash_value = reversed(&hash);
            match compare_be(&hash_value, &target) {
                Ordering::Greater => {
                    proof {
                        self.lemma_first_error_at(block_height, raw, i as nat);
                    }
                    return Err(BtcLightClientError::InvalidProofOfWork);
                },
                _ => {},
            }
            if !retarget_allowed(self.network, height, &target, &prev_target) {
                proof {
                    self.lemma_first_error_at(block_height, raw, i as nat);
                }
                return Err(BtcLightClientError::InvalidDifficultyAdjustment);
            }
            proof {
                assert(self.header_error(block_height, raw, i as int) is None);
                assert(self.first_header_error(block_height, raw, i as nat)
                    == self.first_header_error(block_height, raw, (i + 1) as nat));
            }
            match self.block_hashes.get(height) {
                Ok(existing) => {
                    match compare_be(&existing.hash, &hash) {
                        Ordering::Equal => {},
                        _ => {
                            reorged = reorged + 1;
                        },
                    }
                },
                Err(_) => {},
            }
            let work = target_work(&target);
            proof {
                lemma_be_bound(work@);
                assert(batch_work(raw, (i + 1) as nat) == batch_work(raw, i as nat) + be_value(
                    work@,
                ));
                assert(batch_work(raw, (i + 1) as nat) <= (i + 1) * (pow256(32) - 1))
                    by (nonlinear_arith)
                    requires
                        batch_work(raw, (i + 1) as nat) == batch_work(raw, i as nat) + be_value(
                            work@,
                        ),
                        be_value(work@) < pow256(32),
                        batch_work(raw, i as nat) <= i * (pow256(32) - 1),
                ;
                assert((i + 1) * (pow256(32) - 1) < pow256(40)) by (nonlinear_arith)
                    requires
                        i + 1 <= usize::MAX,
                        usize::MAX < 0x1_0000_0000_0000_0000,
                        pow256(40) == 0x1_0000_0000_0000_0000 * pow256(32),
                        pow256(32) >= 1,
                ;
            }
            add_work(&mut new_work, &work);
            infos.push(HeaderInfo { hash, target, time: header.time });
            prev_hash = hash;
            prev_target = target;
            i = i + 1;
            proof {
                assert(infos@[i - 1].hash@ == chunk_hash(raw, i - 1));
            }
        }
        Ok((infos, new_work, reorged))
    }

    /// The work of the accepted chain from `block_height` to the tip.
    fn replaced_chain_work(&self, block_height: u64) -> (r: [u8; 40])
        requires
            self.wf(),
            1 <= block_height,
            self.block_hashes.lookup(block_height - 1) is Some,
        ensures
            be_value(r@) == self.replaced_work(block_height),
    {
        proof {
            lemma_pow256_add(8, 32);
            reveal_with_fuel(pow256, 9);
            assert(pow256(8) == 0x1_0000_0000_0000_0000);
        }
        let mut old_work: [u8; 40] = [0u8; 40];
        proof {
            lemma_be_leading_zeros_all(old_work@);
        }
        if block_height <= self.latest_block_height {
            let count: u64 = self.latest_block_height - block_height + 1;
            let mut k: u64 = 0;
            while k < count
                invariant
                    self.wf(),
                    1 <= block_height <= self.latest_block_height,
                    count == self.latest_block_height - block_height + 1,
                    self.block_hashes.lookup(block_height - 1) is Some,
                    0 <= k <= count,
                    be_value(old_work@) == self.stored_work(block_height as int, k as nat),
                    self.stored_work(block_height as int, k as nat) <= k * (pow256(32) - 1),
                    pow256(40) == 0x1_0000_0000_0000_0000 * pow256(32),
                decreases count - k,
            {
                let entry = match self.block_hashes.get(block_height + k) {
                    Ok(e) => e,
                    Err(_) => {
                        proof {
                            assert(false);
                        }
                        return old_work;
                    },
                };
                let work = target_work(&entry.target);
                proof {
                    lemma_be_bound(work@);
                    let lo = block_height as int;
                    assert(self.stored_work(lo, (k + 1) as nat) == self.stored_work(lo, k as nat)
                        + be_value(work@));
                    assert(self.stored_work(lo, (k + 1) as nat) <= (k + 1) * (pow256(32) - 1))
                        by (nonlinear_arith)
                        requires
                            self.stored_work(lo, (k + 1) as nat) == self.stored_work(lo, k as nat)
                                + be_value(work@),
                            be_value(work@) < pow256(32),
                            self.stored_work(lo, k as nat) <= k * (pow256(32) - 1),
                    ;
                    assert((k + 1) * (pow256(32) - 1) < pow256(40)) by (nonlinear_arith)
                        requires
                            k + 1 <= u64::MAX,
                            pow256(40) == 0x1_0000_0000_0000_0000 * pow256(32),
                            pow256(32) >= 1,
                    ;
                }
                add_work(&mut old_work, &work);
                k = k + 1;
            }
        }
        proof {
            assert(be_value(old_work@) == self.replaced_work(block_height));
        }
        old_work
    }

    /// Writes a validated batch into the store, drops what lies above its
    /// last header, and makes that header the tip.
    fn commit_batch(&mut self, block_height: u64, infos: &Vec<HeaderInfo>)
        requires
            old(self).wf(),
            infos@.len() >= 1,
            1 <= block_height,
            block_height + infos@.len() - 1 <= u64::MAX,
            old(self).block_hashes.lookup(block_height - 1) is Some,
        ensures
            final(self).wf(),
            final(self).latest_block_height == block_height + infos@.len() - 1,
            final(self).latest_block_hash == infos@[infos@.len() - 1].hash,
            final(self).latest_block_time == infos@[infos@.len() - 1].time,
            final(self).latest_period_target == infos@[infos@.len() - 1].target,
            final(self).network == old(self).network,
            final(self).min_confirmations == old(self).min_confirmations,
            final(self).owner == old(self).owner,
            final(self).verified == old(self).verified,
            final(self).block_hashes@.capacity == old(self).block_hashes@.capacity,
            forall|h: int|
                #![trigger final(self).block_hashes.lookup(h)]
                final(self).block_hashes.lookup(h) is Some ==> h <= block_height + infos@.len() - 1
                    && (if h < block_height {
                    final(self).block_hashes.lookup(h) == old(self).block_hashes.lookup(h)
                } else {
                    final(self).block_hashes.lookup(h) == Some(
                        BlockHashEntry {
                            hash: infos@[h - block_height].hash,
                            target: infos@[h - block_height].target,
                        },
                    )
                }),
    {
        let n = infos.len();
        let new_height: u64 = block_height + (n as u64 - 1);
        let old_height = self.latest_block_height;
        let ghost before = *self;
        let mut j: usize = 0;
        while j < n
            invariant
                before.wf(),
                self.latest_block_height == before.latest_block_height,
                self.network == before.network,
                self.min_confirmations == before.min_confirmations,
                self.owner == before.owner,
                self.verified == before.verified,
                old_height == before.latest_block_height,
                self.block_hashes.wf(),
                self.block_hashes@.capacity == before.block_hashes@.capacity,
                self.block_hashes@.blocks.len() >= 1,
                n == infos@.len(),
                1 <= block_height,
                block_height + n - 1 <= u64::MAX,
                before.block_hashes.lookup(block_height - 1) is Some,
                0 <= j <= n,
                self.block_hashes@.base <= block_height + j,
                self.block_hashes.top() == (if block_height + j - 1 > old_height {
                    block_height + j - 1
                } else {
                    old_height as int
                }),
                self.block_hashes.top() > block_height + j - 1 ==> self.block_hashes@.base
                    == before.block_hashes@.base,
                forall|h: int|
                    #![trigger self.block_hashes.lookup(h)]
                    self.block_hashes.lookup(h) is Some ==> (if h < block_height
                        || h >= block_height + j {
                        self.block_hashes.lookup(h) == before.block_hashes.lookup(h)
                    } else {
                        self.block_hashes.lookup(h) == Some(
                            BlockHashEntry {
                                hash: infos@[h - block_height].hash,
                                target: infos@[h - block_height].target,
                            },
                        )
                    }),
                forall|h: int|
                    #![trigger self.block_hashes.lookup(h)]
                    block_height <= h < block_height + j && self.block_hashes@.base <= h
                        ==> self.block_hashes.lookup(h) is Some,
            decreases n - j,
        {
            let info = infos[j];
            let h: u64 = block_height + j as u64;
            let ghost prior = self.block_hashes;
            let res = self.block_hashes.put(h, BlockHashEntry { hash: info.hash, target: info.target });
            proof {
                assert(res is Ok);
                assert forall|g: int| #[trigger] self.block_hashes.lookup(g) is Some implies (if g
                    < block_height || g >= block_height + j + 1 {
                    self.block_hashes.lookup(g) == before.block_hashes.lookup(g)
                } else {
                    self.block_hashes.lookup(g) == Some(
                        BlockHashEntry {
                            hash: infos@[g - block_height].hash,
                            target: infos@[g - block_height].target,
                        },
                    )
                }) by {
                    if g != h {
                        assert(prior.lookup(g) == self.block_hashes.lookup(g));
                    }
                }
            }
            j = j + 1;
        }
        let ghost mid = self.block_hashes;
        proof {
            assert(mid.lookup(new_height as int) is Some);
        }
        if new_height < old_height {
            self.block_hashes.prune_above(new_height);
            proof {
                let st = self.block_hashes;
                assert(st@.blocks.len() == new_height - mid@.base + 1);
                assert forall|g: int| #[trigger] st.lookup(g) is Some implies st.lookup(g)
                    == mid.lookup(g) && g <= new_height by {}
                assert(st.lookup(new_height as int) == mid.lookup(new_height as int));
            }
        }
        let last = infos[n - 1];
        self.latest_block_height = new_height;
        self.latest_block_hash = last.hash;
        self.latest_block_time = last.time;
        self.latest_period_target = last.target;
        proof {
            let st = self.block_hashes;
            assert(st.top() == new_height);
            assert(st.lookup(new_height as int) == mid.lookup(new_height as int));
            assert forall|g: int| #[trigger] st.lookup(g) is Some implies st.lookup(g)
                == mid.lookup(g) && g <= new_height by {
                if new_height >= old_height {
                    assert(st == mid);
                }
            }
        }
    }

    proof fn lemma_first_error_at(&self, start: u64, raw: Seq<u8>, i: nat)
        requires
            i < header_count(raw),
            self.header_error(start, raw, i as int) is Some,
            self.first_header_error(start, raw, 0) == self.first_header_error(start, raw, i),
        ensures
            self.first_header_error(start, raw, 0) == self.header_error(start, raw, i as int),
    {
    }
}

impl BtcLightClientState {
    /// Whether the tip is at least `min_confirmations` above `block_height`.
    pub open spec fn confirmed(&self, block_height: u64) -> bool {
        block_height <= self.latest_block_height && self.latest_block_height - block_height
            >= self.min_confirmations
    }

    /// Why an inclusion proof for a transaction at `block_height` is
    /// refused, if it is.
    pub open spec fn verify_error(&self, block_height: u64, p: BtcTxProof) -> Option<
        BtcLightClientError,
    > {
        let outs = decoded_outputs(p.raw_tx@);
        let idx = p.output_index as int;
        if !self.confirmed(block_height) {
            Some(BtcLightClientError::InsufficientConfirmations)
        } else if p.block_header@.len() != 80 {
            Some(BtcLightClientError::InvalidHeaderFormat)
        } else if self.block_hashes.lookup(block_height as int) is None {
            Some(BtcLightClientError::BlockNotFound)
        } else if sha256d(p.block_header@) != self.block_hashes.lookup(
            block_height as int,
        ).unwrap().hash@ {
            Some(BtcLightClientError::BlockHashMismatch)
        } else if outs is None {
            Some(BtcLightClientError::InvalidTransactionFormat)
        } else if txid_of(p.raw_tx@) != p.tx_id@ {
            Some(BtcLightClientError::TransactionIdMismatch)
        } else if !merkle_proof_holds(
            p.tx_id@,
            p.block_header@.subrange(36, 68),
            p.tx_index,
            p.merkle_proof@,
        ) {
            Some(BtcLightClientError::InvalidMerkleProof)
        } else if idx >= outs.unwrap().len() {
            Some(BtcLightClientError::InvalidOutputIndex)
        } else if outs.unwrap()[idx].0 < p.expected_amount {
            Some(BtcLightClientError::InsufficientAmount)
        } else if commitment_of(outs.unwrap()[idx].1) != Some(p.expected_script_hash@) {
            Some(BtcLightClientError::InvalidOutputScript)
        } else {
            None
        }
    }

    /// Whether a transaction id has been verified.
    pub open spec fn is_verified(&self, tx_id: [u8; 32]) -> bool {
        exists|i: int| 0 <= i < self.verified@.len() && (#[trigger] self.verified@[i]).tx_id == tx_id
    }

    /// Checks an inclusion proof against the stored chain and, when it holds,
    /// records the transaction as verified (once per transaction id).
    pub fn verify_transaction(&mut self, block_height: u64, tx_proof: &BtcTxProof) -> (r: Result<
        TransactionVerified,
        BtcLightClientError,
    >)
        requires
            old(self).wf(),
        ensures
            final(self).wf(),
            r is Err <==> old(self).verify_error(block_height, *tx_proof) is Some,
            r matches Err(e) ==> old(self).verify_error(block_height, *tx_proof) == Some(e)
                && *final(self) == *old(self),
            r matches Ok(ev) ==> {
                &&& ev.block_height == block_height
                &&& ev.tx_id == tx_proof.tx_id
                &&& ev.amount == decoded_outputs(tx_proof.raw_tx@).unwrap()[tx_proof.output_index as int].0
                &&& final(self).latest_block_height == old(self).latest_block_height
                &&& final(self).latest_block_hash == old(self).latest_block_hash
                &&& final(self).latest_block_time == old(self).latest_block_time
                &&& final(self).latest_period_target == old(self).latest_period_target
                &&& final(self).network == old(self).network
                &&& final(self).block_hashes == old(self).block_hashes
                &&& final(self).min_confirmations == old(self).min_confirmations
                &&& final(self).owner == old(self).owner
                &&& final(self).is_verified(tx_proof.tx_id)
                &&& (old(self).is_verified(tx_proof.tx_id) ==> final(self).verified@ == old(
                    self,
                ).verified@)
                &&& (!old(self).is_verified(tx_proof.tx_id) ==> final(self).verified@ == old(
                    self,
                ).verified@.push(
                    TxVerifiedState {
                        tx_id: ev.tx_id,
                        block_height: ev.block_height,
                        amount: ev.amount,
                    },
                ))
            },
    {
        if block_height > self.latest_block_height || self.latest_block_height - block_height
            < self.min_confirmations {
            return Err(BtcLightClientError::InsufficientConfirmations);
        }
        let header = match BlockHeader::parse(tx_proof.block_header.as_slice()) {
            Some(h) => h,
            None => {
                return Err(BtcLightClientError::InvalidHeaderFormat);
            },
        };
        let stored = match self.block_hashes.get(block_height) {
            Ok(e) => e,
            Err(_) => {
                return Err(BtcLightClientError::BlockNotFound);
            },
        };
        let header_hash = double_sha256(tx_proof.block_header.as_slice());
        match compare_be(&header_hash, &stored.hash) {
            Ordering::Equal => {},
            _ => {
                return Err(BtcLightClientError::BlockHashMismatch);
            },
        }
        let tx = match decode_transaction(tx_proof.raw_tx.as_slice()) {
            Some(t) => t,
            None => {
                return Err(BtcLightClientError::InvalidTransactionFormat);
            },
        };
        match compare_be(&tx.txid, &tx_proof.tx_id) {
            Ordering::Equal => {},
            _ => {
                return Err(BtcLightClientError::TransactionIdMismatch);
            },
        }
        if !verify_merkle_proof(
            &tx_proof.tx_id,
            &header.merkle_root,
            tx_proof.tx_index,
            tx_proof.merkle_proof.as_slice(),
        ) {
            return Err(BtcLightClientError::InvalidMerkleProof);
        }
        let idx = tx_proof.output_index as usize;
        if idx >= tx.outputs.len() {
            return Err(BtcLightClientError::InvalidOutputIndex);
        }
        let output = &tx.outputs[idx];
        proof {
            assert(outputs_view(tx.outputs@)[idx as int] == (output.value, output.script_pubkey@));
        }
        if output.value < tx_proof.expected_amount {
            return Err(BtcLightClientError::InsufficientAmount);
        }
        if !verify_output_script(output.script_pubkey.as_slice(), &tx_proof.expected_script_hash) {
            return Err(BtcLightClientError::InvalidOutputScript);
        }
        let amount = output.value;
        if self.find_verified(&tx_proof.tx_id).is_none() {
            self.verified.push(TxVerifiedState { tx_id: tx_proof.tx_id, block_height, amount });
            proof {
                let last = self.verified@.len() - 1;
                assert(self.verified@[last].tx_id == tx_proof.tx_id);
            }
        }
        Ok(TransactionVerified { block_height, tx_id: tx_proof.tx_id, amount })
    }

    fn find_verified(&self, tx_id: &[u8; 32]) -> (r: Option<usize>)
        ensures
            r is Some <==> self.is_verified(*tx_id),
            r matches Some(i) ==> i < self.verified@.len() && self.verified@[i as int].tx_id
                == *tx_id,
    {
        let mut i: usize = 0;
        while i < self.verified.len()
            invariant
                0 <= i <= self.verified@.len(),
                forall|j: int| 0 <= j < i ==> (#[trigger] self.verified@[j]).tx_id != *tx_id,
            decreases self.verified@.len() - i,
        {
            match compare_be(&self.verified[i].tx_id, tx_id) {
                Ordering::Equal => {
                    proof {
                        lemma_bytes32_eq(self.verified@[i as int].tx_id, *tx_id);
                    }
                    return Some(i);
                },
                _ => {},
            }
            i = i + 1;
        }
        None
    }

    /// The record of a verified transaction, if there is one.
    pub fn get_verified(&self, tx_id: &[u8; 32]) -> (r: Option<TxVerifiedState>)
        ensures
            r is Some <==> self.is_verified(*tx_id),
            r matches Some(v) ==> v.tx_id == *tx_id && self.verified@.contains(v),
    {
        match self.find_verified(tx_id) {
            Some(i) => Some(self.verified[i]),
            None => None,
        }
    }

    /// Sets the minimum confirmation depth; only the owner may.
    pub fn update_min_confirmations(&mut self, authority: &[u8; 32], min_confirmations: u64) -> (r:
        Result<u64, BtcLightClientError>)
        requires
            old(self).wf(),
        ensures
            final(self).wf(),
            r is Ok <==> *authority == old(self).owner,
            r is Err ==> r == Err::<u64, BtcLightClientError>(
                BtcLightClientError::UnauthorizedSigner,
            ) && *final(self) == *old(self),
            r matches Ok(previous) ==> previous == old(self).min_confirmations
                && final(self).min_confirmations == min_confirmations && *final(self) == (
            BtcLightClientState { min_confirmations, ..*old(self) }),
    {
        match compare_be(authority, &self.owner) {
            Ordering::Equal => {},
            _ => {
                return Err(BtcLightClientError::UnauthorizedSigner);
            },
        }
        proof {
            lemma_bytes32_eq(*authority, self.owner);
        }
        let previous = self.min_confirmations;
        self.min_confirmations = min_confirmations;
        Ok(previous)
    }
}

/// Whether a block at `height` with `target` may follow a parent with target
/// `prev`.
pub fn retarget_allowed(network: NetworkMode, height: u64, target: &[u8; 32], prev: &[u8; 32]) -> (r:
    bool)
    ensures
        r == retarget_ok(network, height as int, be_value(target@), be_value(prev@)),
{
    match network {
        NetworkMode::Reduced => {
            true
        },
        NetworkMode::Production => {
            if height % RETARGET_INTERVAL == 0 {
                let mut bound: [u8; 32] = *prev;
                let carry = mul_in_place(&mut bound, 4);
                proof {
                    lemma_be_bound(target@);
                    lemma_be_bound(bound@);
                    let p = pow256(32);
                    if carry > 0 {
                        assert(carry * p >= p) by (nonlinear_arith)
                            requires
                                carry > 0,
                        ;
                    }
                }
                if carry > 0 {
                    true
                } else {
                    match compare_be(target, &bound) {
                        Ordering::Less => true,
                        _ => false,
                    }
                }
            } else {
                match compare_be(target, prev) {
                    Ordering::Equal => true,
                    _ => false,
                }
            }
        },
    }
}

} // verus!
