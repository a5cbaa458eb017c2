use btc_light_client::client::{
    retarget_allowed, BtcLightClientError, BtcLightClientState, BtcTxProof, NetworkMode,
};

const EASY: u32 = 0x207fffff;
const HARD: u32 = 0x1f7fffff;
const OWNER: [u8; 32] = [0x0a; 32];
const GENESIS: [u8; 32] = [0x11; 32];

fn dsha(data: &[u8]) -> [u8; 32] {
    let h = <bitcoin::hashes::sha256d::Hash as bitcoin::hashes::Hash>::hash(data);
    <bitcoin::hashes::sha256d::Hash as bitcoin::hashes::Hash>::to_byte_array(h)
}

fn node(a: &[u8; 32], b: &[u8; 32]) -> [u8; 32] {
    let mut v = a.to_vec();
    v.extend_from_slice(b);
    dsha(&v)
}

fn target_be(bits: u32) -> [u8; 32] {
    bitcoin::pow::Target::from_compact(bitcoin::pow::CompactTarget::from_consensus(bits))
        .to_be_bytes()
}

fn meets(hash: &[u8; 32], target: &[u8; 32]) -> bool {
    let mut r = *hash;
    r.reverse();
    r <= *target
}

fn raw_header(prev: [u8; 32], merkle: [u8; 32], time: u32, bits: u32, nonce: u32) -> Vec<u8> {
    let mut v = Vec::with_capacity(80);
    v.extend_from_slice(&1u32.to_le_bytes());
    v.extend_from_slice(&prev);
    v.extend_from_slice(&merkle);
    v.extend_from_slice(&time.to_le_bytes());
    v.extend_from_slice(&bits.to_le_bytes());
    v.extend_from_slice(&nonce.to_le_bytes());
    v
}

/// A header whose proof of work holds (`valid`) or fails.
fn grind(prev: [u8; 32], merkle: [u8; 32], time: u32, bits: u32, valid: bool) -> Vec<u8> {
    let target = target_be(bits);
    let mut nonce = 0u32;
    loop {
        let h = raw_header(prev, merkle, time, bits, nonce);
        if meets(&dsha(&h), &target) == valid {
            return h;
        }
        nonce += 1;
    }
}

fn mine(prev: [u8; 32], merkle: [u8; 32], time: u32, bits: u32) -> Vec<u8> {
    grind(prev, merkle, time, bits, true)
}

fn client(height: u64, bits: u32, testnet: bool, min_conf: u64) -> BtcLightClientState {
    BtcLightClientState::initialize(height, GENESIS, 1000, target_be(bits), testnet, min_conf, OWNER)
}

fn wsh_script(commitment: [u8; 32]) -> Vec<u8> {
    let mut s = vec![0x00, 0x20];
    s.extend_from_slice(&commitment);
    s
}

fn make_tx(tag: u32, value: u64, script: Vec<u8>) -> Vec<u8> {
    let tx = bitcoin::Transaction {
        version: bitcoin::transaction::Version::TWO,
        lock_time: bitcoin::absolute::LockTime::ZERO,
        input: vec![bitcoin::TxIn {
            previous_output: bitcoin::OutPoint::null(),
            script_sig: bitcoin::ScriptBuf::from_bytes(tag.to_le_bytes().to_vec()),
            sequence: bitcoin::Sequence::MAX,
            witness: bitcoin::Witness::new(),
        }],
        output: vec![
            bitcoin::TxOut {
                value: bitcoin::Amount::from_sat(1),
                script_pubkey: bitcoin::ScriptBuf::from_bytes(vec![0x6a]),
            },
            bitcoin::TxOut {
                value: bitcoin::Amount::from_sat(value),
                script_pubkey: bitcoin::ScriptBuf::from_bytes(script),
            },
        ],
    };
    bitcoin::consensus::serialize(&tx)
}

fn txid_of(raw: &[u8]) -> [u8; 32] {
    let tx: bitcoin::Transaction = bitcoin::consensus::deserialize(raw).unwrap();
    <bitcoin::Txid as bitcoin::hashes::Hash>::to_byte_array(tx.txid())
}

struct Block {
    raw_txs: Vec<Vec<u8>>,
    ids: Vec<[u8; 32]>,
    root: [u8; 32],
}

fn four_tx_block(commitment: [u8; 32]) -> Block {
    let raw_txs: Vec<Vec<u8>> =
        (0..4u32).map(|i| make_tx(i, 50_000 + i as u64, wsh_script(commitment))).collect();
    let ids: Vec<[u8; 32]> = raw_txs.iter().map(|t| txid_of(t)).collect();
    let root = node(&node(&ids[0], &ids[1]), &node(&ids[2], &ids[3]));
    Block { raw_txs, ids, root }
}

fn proof_for_index_2(block: &Block, header: &[u8], commitment: [u8; 32]) -> BtcTxProof {
    BtcTxProof {
        block_header: header.to_vec(),
        tx_id: block.ids[2],
        tx_index: 2,
        merkle_proof: vec![block.ids[3], node(&block.ids[0], &block.ids[1])],
        raw_tx: block.raw_txs[2].clone(),
        output_index: 1,
        expected_amount: 50_002,
        expected_script_hash: commitment,
    }
}

/// A client at height 2 whose block 2 holds the four-transaction block.
fn client_with_block(min_conf: u64) -> (BtcLightClientState, Block, Vec<u8>, [u8; 32]) {
    let commitment = [0x5c; 32];
    let block = four_tx_block(commitment);
    let mut c = client(0, EASY, false, min_conf);
    let h1 = mine(GENESIS, [1; 32], 1001, EASY);
    let h2 = mine(dsha(&h1), block.root, 1002, EASY);
    let mut batch = h1.clone();
    batch.extend_from_slice(&h2);
    c.submit_block_headers(1, &batch).unwrap();
    (c, block, h2, commitment)
}

#[test]
fn end_to_end_scenario() {
    let mut c = client(0, EASY, false, 0);
    let h1 = mine(GENESIS, [1; 32], 1001, EASY);
    let out = c.submit_block_headers(1, &h1).unwrap();
    assert_eq!(out.new_tip.block_height, 1);
    assert_eq!(out.new_tip.block_hash, dsha(&h1));
    assert_eq!(out.reorg, None);
    assert_eq!(c.latest_block_height, 1);
    assert_eq!(c.latest_block_hash, dsha(&h1));

    let again = c.submit_block_headers(1, &h1).unwrap();
    assert_eq!(again.reorg, None);
    assert_eq!(c.latest_block_height, 1);

    // A different header of equal work does not displace the first seen.
    let h1c = mine(GENESIS, [3; 32], 1001, EASY);
    assert_eq!(c.submit_block_headers(1, &h1c), Err(BtcLightClientError::NoProgress));

    // A competing chain from height 1 that carries more work replaces it.
    let commitment = [0x5c; 32];
    let block = four_tx_block(commitment);
    let h1b = mine(GENESIS, [2; 32], 1002, EASY);
    let h2b = mine(dsha(&h1b), block.root, 1003, EASY);
    let mut batch = h1b.clone();
    batch.extend_from_slice(&h2b);
    let out = c.submit_block_headers(1, &batch).unwrap();
    let reorg = out.reorg.unwrap();
    assert_eq!(reorg.reorg_count, 1);
    assert_eq!(reorg.old_tip, dsha(&h1));
    assert_eq!(reorg.new_tip, dsha(&h2b));
    assert_eq!(c.block_hashes.get(1).unwrap().hash, dsha(&h1b));
    assert_eq!(c.latest_block_height, 2);
    assert_eq!(c.latest_block_hash, dsha(&h2b));

    let proof = proof_for_index_2(&block, &h2b, commitment);
    let verified = c.verify_transaction(2, &proof).unwrap();
    assert_eq!(verified.amount, 50_002);
    assert_eq!(verified.tx_id, block.ids[2]);
    let record = c.get_verified(&block.ids[2]).unwrap();
    assert_eq!(record.amount, 50_002);
    assert_eq!(record.block_height, 2);
    assert!(c.get_verified(&block.ids[1]).is_none());

    let mut corrupted = proof.clone();
    corrupted.merkle_proof[0][0] ^= 1;
    assert_eq!(c.verify_transaction(2, &corrupted), Err(BtcLightClientError::InvalidMerkleProof));
}

#[test]
fn verifying_twice_keeps_one_record() {
    let (mut c, block, h2, commitment) = client_with_block(0);
    let proof = proof_for_index_2(&block, &h2, commitment);
    assert!(c.verify_transaction(2, &proof).is_ok());
    assert!(c.verify_transaction(2, &proof).is_ok());
    assert_eq!(c.verified.len(), 1);
}

#[test]
fn confirmations_boundary() {
    let (mut c, block, h2, commitment) = client_with_block(1);
    let proof = proof_for_index_2(&block, &h2, commitment);
    assert_eq!(c.verify_transaction(2, &proof), Err(BtcLightClientError::InsufficientConfirmations));
    assert_eq!(c.verify_transaction(3, &proof), Err(BtcLightClientError::InsufficientConfirmations));
    let h3 = mine(dsha(&h2), [9; 32], 1003, EASY);
    c.submit_block_headers(3, &h3).unwrap();
    assert_eq!(c.verify_transaction(2, &proof).unwrap().amount, 50_002);
}

#[test]
fn verify_transaction_errors() {
    let (mut c, block, h2, commitment) = client_with_block(0);
    let good = proof_for_index_2(&block, &h2, commitment);

    let mut p = good.clone();
    p.block_header.pop();
    assert_eq!(c.verify_transaction(2, &p), Err(BtcLightClientError::InvalidHeaderFormat));

    let mut p = good.clone();
    p.block_header[76] ^= 1;
    assert_eq!(c.verify_transaction(2, &p), Err(BtcLightClientError::BlockHashMismatch));

    let mut p = good.clone();
    p.raw_tx.push(0);
    assert_eq!(c.verify_transaction(2, &p), Err(BtcLightClientError::InvalidTransactionFormat));

    let mut p = good.clone();
    p.tx_id = block.ids[1];
    assert_eq!(c.verify_transaction(2, &p), Err(BtcLightClientError::TransactionIdMismatch));

    let mut p = good.clone();
    p.tx_index = 3;
    assert_eq!(c.verify_transaction(2, &p), Err(BtcLightClientError::InvalidMerkleProof));

    let mut p = good.clone();
    p.output_index = 2;
    assert_eq!(c.verify_transaction(2, &p), Err(BtcLightClientError::InvalidOutputIndex));

    let mut p = good.clone();
    p.expected_amount = 50_003;
    assert_eq!(c.verify_transaction(2, &p), Err(BtcLightClientError::InsufficientAmount));

    let mut p = good.clone();
    p.expected_script_hash = [0x5d; 32];
    assert_eq!(c.verify_transaction(2, &p), Err(BtcLightClientError::InvalidOutputScript));

    let mut p = good.clone();
    p.output_index = 0;
    p.expected_amount = 1;
    assert_eq!(c.verify_transaction(2, &p), Err(BtcLightClientError::InvalidOutputScript));

    assert_eq!(c.verify_transaction(1, &good), Err(BtcLightClientError::BlockHashMismatch));
    assert!(c.verified.is_empty());
}

#[test]
fn evicted_block_not_found() {
    let mut c = client(0, EASY, false, 0);
    let mut batch = Vec::new();
    let mut prev = GENESIS;
    for i in 0..4033u32 {
        let h = mine(prev, [1; 32], 1001 + i, EASY);
        prev = dsha(&h);
        batch.extend_from_slice(&h);
    }
    c.submit_block_headers(1, &batch).unwrap();
    assert_eq!(c.latest_block_height, 4033);
    assert_eq!(c.block_hashes.range(), Some((2, 4033)));
    let (_, block, h2, commitment) = client_with_block(0);
    let p = proof_for_index_2(&block, &h2, commitment);
    assert_eq!(c.verify_transaction(1, &p), Err(BtcLightClientError::BlockNotFound));
    assert_eq!(c.verify_transaction(2, &p), Err(BtcLightClientError::BlockHashMismatch));
}

#[test]
fn batch_shape_errors() {
    let mut c = client(5, EASY, false, 0);
    assert_eq!(c.submit_block_headers(6, &[]), Err(BtcLightClientError::NoHeaders));
    assert_eq!(c.submit_block_headers(6, &[0u8; 81]), Err(BtcLightClientError::InvalidHeaderLength));
    assert_eq!(
        c.submit_block_headers(u64::MAX, &[0u8; 160]),
        Err(BtcLightClientError::HeightOverflow)
    );
    let h = mine(GENESIS, [1; 32], 1001, EASY);
    assert_eq!(c.submit_block_headers(8, &h), Err(BtcLightClientError::ParentBlockNotYetSubmitted));
    assert_eq!(c.submit_block_headers(0, &h), Err(BtcLightClientError::ParentBlockNotYetSubmitted));
    assert_eq!(c.latest_block_height, 5);
}

#[test]
fn old_period_rejected() {
    let mut c = client(2016, EASY, false, 0);
    let h = mine(GENESIS, [1; 32], 1001, EASY);
    assert_eq!(c.submit_block_headers(2015, &h), Err(BtcLightClientError::OldDifficultyPeriod));
}

#[test]
fn broken_link_rejected() {
    let mut c = client(0, EASY, false, 0);
    let h = mine([0x22; 32], [1; 32], 1001, EASY);
    assert_eq!(c.submit_block_headers(1, &h), Err(BtcLightClientError::InvalidPrevHash));
    let h1 = mine(GENESIS, [1; 32], 1001, EASY);
    let h2 = mine([0x33; 32], [1; 32], 1002, EASY);
    let mut batch = h1.clone();
    batch.extend_from_slice(&h2);
    assert_eq!(c.submit_block_headers(1, &batch), Err(BtcLightClientError::InvalidPrevHash));
    assert_eq!(c.latest_block_height, 0);
    assert!(c.block_hashes.get(1).is_err());
}

#[test]
fn insufficient_pow_rejected() {
    let mut c = client(0, EASY, false, 0);
    let h = grind(GENESIS, [1; 32], 1001, EASY, false);
    assert_eq!(c.submit_block_headers(1, &h), Err(BtcLightClientError::InvalidProofOfWork));
}

#[test]
fn production_target_must_match_within_period() {
    let mut c = client(0, EASY, false, 0);
    let h = mine(GENESIS, [1; 32], 1001, HARD);
    assert_eq!(c.submit_block_headers(1, &h), Err(BtcLightClientError::InvalidDifficultyAdjustment));
    let mut t = client(0, EASY, true, 0);
    assert!(t.submit_block_headers(1, &h).is_ok());
}

#[test]
fn retarget_bound_at_period_boundary() {
    let prev = target_be(HARD);
    let mut four = prev;
    let carry = btc_light_client::arith::mul_in_place(&mut four, 4);
    assert_eq!(carry, 0);
    let mut just_under = four;
    let mut k = 31;
    loop {
        if just_under[k] == 0 {
            just_under[k] = 0xff;
            k -= 1;
        } else {
            just_under[k] -= 1;
            break;
        }
    }
    assert!(retarget_allowed(NetworkMode::Production, 4032, &just_under, &prev));
    assert!(!retarget_allowed(NetworkMode::Production, 4032, &four, &prev));
    assert!(retarget_allowed(NetworkMode::Reduced, 4032, &four, &prev));
    assert!(!retarget_allowed(NetworkMode::Production, 4033, &just_under, &prev));
    assert!(retarget_allowed(NetworkMode::Production, 4033, &prev, &prev));
}

#[test]
fn boundary_header_over_bound_rejected() {
    // Period 0 runs at HARD; a boundary block at EASY is far over four times.
    let mut c = BtcLightClientState::initialize(2015, GENESIS, 1000, target_be(HARD), false, 0, OWNER);
    let h = mine(GENESIS, [1; 32], 1001, EASY);
    assert_eq!(c.submit_block_headers(2016, &h), Err(BtcLightClientError::InvalidDifficultyAdjustment));
    let mut easy = BtcLightClientState::initialize(2015, GENESIS, 1000, target_be(EASY), false, 0, OWNER);
    let h2 = mine(GENESIS, [1; 32], 1001, HARD);
    let out = easy.submit_block_headers(2016, &h2).unwrap();
    assert_eq!(out.new_tip.block_height, 2016);
    assert_eq!(easy.latest_period_target, target_be(HARD));
}

/// Reduced mode, tip at 2015 on a hard block, on top of a start at 2014.
fn hard_tip_client() -> (BtcLightClientState, Vec<u8>) {
    let mut c = client(2014, EASY, true, 0);
    let hard = mine(GENESIS, [1; 32], 1001, HARD);
    c.submit_block_headers(2015, &hard).unwrap();
    (c, hard)
}

#[test]
fn lighter_longer_branch_across_boundary_rejected() {
    let (mut c, hard) = hard_tip_client();
    let a = mine(GENESIS, [2; 32], 1002, EASY);
    let b = mine(dsha(&a), [2; 32], 1003, EASY);
    let mut batch = a.clone();
    batch.extend_from_slice(&b);
    assert_eq!(c.submit_block_headers(2015, &batch), Err(BtcLightClientError::InsufficientChainWork));
    assert_eq!(c.latest_block_height, 2015);
    assert_eq!(c.latest_block_hash, dsha(&hard));
}

#[test]
fn shorter_heavier_branch_accepted_and_prunes() {
    let mut c = client(2014, EASY, true, 0);
    let a = mine(GENESIS, [2; 32], 1002, EASY);
    let b = mine(dsha(&a), [2; 32], 1003, EASY);
    let d = mine(dsha(&b), [2; 32], 1004, EASY);
    let mut batch = a.clone();
    batch.extend_from_slice(&b);
    batch.extend_from_slice(&d);
    c.submit_block_headers(2015, &batch).unwrap();
    assert_eq!(c.block_hashes.range(), Some((2014, 2017)));

    let hard = mine(GENESIS, [1; 32], 1001, HARD);
    let next = mine(dsha(&hard), [1; 32], 1002, EASY);
    let mut heavier = hard.clone();
    heavier.extend_from_slice(&next);
    let out = c.submit_block_headers(2015, &heavier).unwrap();
    assert_eq!(out.reorg.unwrap().reorg_count, 2);
    assert_eq!(c.latest_block_height, 2016);
    assert_eq!(c.latest_block_hash, dsha(&next));
    assert_eq!(c.block_hashes.range(), Some((2014, 2016)));
    assert_eq!(c.block_hashes.get(2015).unwrap().hash, dsha(&hard));
    assert!(c.block_hashes.get(2017).is_err());
}

#[test]
fn equal_work_replacement_within_period_is_no_progress() {
    let mut c = client(0, EASY, true, 0);
    let a = mine(GENESIS, [2; 32], 1002, EASY);
    c.submit_block_headers(1, &a).unwrap();
    let b = mine(GENESIS, [3; 32], 1002, EASY);
    assert_eq!(c.submit_block_headers(1, &b), Err(BtcLightClientError::NoProgress));
}

#[test]
fn min_confirmations_owner_only() {
    let mut c = client(0, EASY, false, 3);
    assert_eq!(c.update_min_confirmations(&[0x0b; 32], 6), Err(BtcLightClientError::UnauthorizedSigner));
    assert_eq!(c.min_confirmations, 3);
    assert_eq!(c.update_min_confirmations(&OWNER, 6), Ok(3));
    assert_eq!(c.min_confirmations, 6);
}

#[test]
fn initialize_records_tip() {
    let c = client(7, EASY, false, 2);
    assert_eq!(c.latest_block_height, 7);
    assert_eq!(c.latest_block_hash, GENESIS);
    assert_eq!(c.latest_block_time, 1000);
    assert_eq!(c.network, NetworkMode::Production);
    assert_eq!(c.block_hashes.range(), Some((7, 7)));
    assert_eq!(c.block_hashes.get(7).unwrap().hash, GENESIS);
    let t = client(7, EASY, true, 2);
    assert_eq!(t.network, NetworkMode::Reduced);
}
