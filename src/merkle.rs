//! The chain's double hash and Merkle inclusion proofs built on it.
use vstd::prelude::*;

verus! {

/// The chain's double SHA-256 of a byte string, in the byte order the hash
/// function produces.
pub uninterp spec fn sha256d(data: Seq<u8>) -> Seq<u8>;

/// Relies on bitcoin_hashes' `sha256d::Hash::hash`: the double SHA-256 of
/// the input, as its 32 raw bytes.
#[verifier::external_body]
pub(crate) fn double_sha256(data: &[u8]) -> (r: [u8; 32])
    ensures
        r@ == sha256d(data@),
{
    let h = <bitcoin::hashes::sha256d::Hash as bitcoin::hashes::Hash>::hash(data);
    <bitcoin::hashes::sha256d::Hash as bitcoin::hashes::Hash>::to_byte_array(h)
}

/// One level up the tree: the current node is the right child when `right`
/// holds, the left child otherwise.
pub open spec fn merkle_step(current: Seq<u8>, sibling: Seq<u8>, right: bool) -> Seq<u8> {
    if right {
        sha256d(sibling + current)
    } else {
        sha256d(current + sibling)
    }
}

/// The root reached from `leaf` at position `index` along `path`, the
/// siblings listed from the leaf upwards; bit `i` of `index` places the node
/// at level `i`.
pub open spec fn merkle_root_from(leaf: Seq<u8>, index: nat, path: Seq<[u8; 32]>) -> Seq<u8>
    decreases path.len(),
{
    if path.len() == 0 {
        leaf
    } else {
        merkle_root_from(
            merkle_step(leaf, path[0]@, index % 2 == 1),
            index / 2,
            path.subrange(1, path.len() as int),
        )
    }
}

/// A proof holds when the path leads from the transaction hash to the root;
/// an empty path stands only for the single transaction of a block, at
/// position 0.
pub open spec fn merkle_proof_holds(
    tx_hash: Seq<u8>,
    merkle_root: Seq<u8>,
    tx_index: u32,
    proof: Seq<[u8; 32]>,
) -> bool {
    &&& !(proof.len() == 0 && tx_index != 0)
    &&& merkle_root_from(tx_hash, tx_index as nat, proof) == merkle_root
}

fn concat_hashes(a: &[u8; 32], b: &[u8; 32]) -> (r: Vec<u8>)
    ensures
        r@ == a@ + b@,
{
    let mut r: Vec<u8> = Vec::with_capacity(64);
    let mut i: usize = 0;
    while i < 32
        invariant
            0 <= i <= 32,
            r@ == a@.subrange(0, i as int),
        decreases 32 - i,
    {
        r.push(a[i]);
        i = i + 1;
        proof {
            assert(r@ =~= a@.subrange(0, i as int));
        }
    }
    let mut j: usize = 0;
    while j < 32
        invariant
            0 <= j <= 32,
            r@ == a@ + b@.subrange(0, j as int),
        decreases 32 - j,
    {
        r.push(b[j]);
        j = j + 1;
        proof {
            assert(r@ =~= a@ + b@.subrange(0, j as int));
        }
    }
    proof {
        assert(b@.subrange(0, 32) =~= b@);
    }
    r
}

/// Recomputes the Merkle root from a transaction hash, its position in the
/// block and the sibling path, and compares it with `merkle_root`.
pub fn verify_merkle_proof(
    tx_hash: &[u8; 32],
    merkle_root: &[u8; 32],
    tx_index: u32,
    proof: &[[u8; 32]],
) -> (r: bool)
    ensures
        r == merkle_proof_holds(tx_hash@, merkle_root@, tx_index, proof@),
{
    if proof.len() == 0 && tx_index != 0 {
        return false;
    }
    let n = proof.len();
    let mut current: [u8; 32] = *tx_hash;
    let mut index: u32 = tx_index;
    let mut i: usize = 0;
    proof {
        assert(proof@.subrange(0, n as int) =~= proof@);
    }
    while i < n
        invariant
            n == proof@.len(),
            0 <= i <= n,
            merkle_root_from(tx_hash@, tx_index as nat, proof@) == merkle_root_from(
                current@,
                index as nat,
                proof@.subrange(i as int, n as int),
            ),
        decreases n - i,
    {
        let sibling = &proof[i];
        let concat = if index % 2 == 1 {
            concat_hashes(sibling, &current)
        } else {
            concat_hashes(&current, sibling)
        };
        let ghost before = current@;
        current = double_sha256(concat.as_slice());
        proof {
            let rest = proof@.subrange(i as int, n as int);
            assert(rest.len() == n - i);
            assert(rest[0] == proof@[i as int]);
            assert(rest.subrange(1, rest.len() as int) =~= proof@.subrange(i + 1, n as int));
            assert(current@ == merkle_step(before, rest[0]@, index % 2 == 1));
            assert(index as nat / 2 == (index / 2) as nat);
        }
        index = index / 2;
        i = i + 1;
    }
    proof {
        assert(proof@.subrange(n as int, n as int).len() == 0);
        assert(merkle_root_from(tx_hash@, tx_index as nat, proof@) == current@);
    }
    let mut k: usize = 0;
    while k < 32
        invariant
            0 <= k <= 32,
            forall|j: int| 0 <= j < k ==> current@[j] == merkle_root@[j],
            merkle_root_from(tx_hash@, tx_index as nat, proof@) == current@,
            !(proof@.len() == 0 && tx_index != 0),
        decreases 32 - k,
    {
        if current[k] != merkle_root[k] {
            return false;
        }
        k = k + 1;
    }
    proof {
        assert(current@ =~= merkle_root@);
    }
    true
}

} // verus!
