//! The fixed 80-byte header serialization: version, previous hash, Merkle
//! root, time, encoded target and nonce, integers little-endian.
use vstd::prelude::*;

verus! {

/// Length of one serialized header.
pub const HEADER_BYTES: usize = 80;

/// The fields of a block header.
#[derive(Clone, Copy, Debug, PartialEq, Eq)]
pub struct BlockHeader {
    pub version: u32,
    pub prev_blockhash: [u8; 32],
    pub merkle_root: [u8; 32],
    pub time: u32,
    pub bits: u32,
    pub nonce: u32,
}

/// The little-endian 32-bit integer at offset `k`.
pub open spec fn le_u32_at(s: Seq<u8>, k: int) -> u32 {
    (s[k] as nat + 256 * (s[k + 1] as nat) + 65536 * (s[k + 2] as nat) + 16777216 * (
    s[k + 3] as nat)) as u32
}

/// The fields a serialized header holds.
pub open spec fn header_fields_of(raw: Seq<u8>, h: BlockHeader) -> bool {
    &&& h.version == le_u32_at(raw, 0)
    &&& h.prev_blockhash@ == raw.subrange(4, 36)
    &&& h.merkle_root@ == raw.subrange(36, 68)
    &&& h.time == le_u32_at(raw, 68)
    &&& h.bits == le_u32_at(raw, 72)
    &&& h.nonce == le_u32_at(raw, 76)
}

/// The `i`-th header of a concatenated batch.
pub open spec fn header_chunk(raw: Seq<u8>, i: int) -> Seq<u8> {
    raw.subrange(80 * i, 80 * i + 80)
}

fn read_u32_le(b: &[u8], k: usize) -> (r: u32)
    requires
        k + 4 <= b@.len(),
    ensures
        r == le_u32_at(b@, k as int),
{
    let v: u32 = b[k] as u32 + 256 * (b[k + 1] as u32) + 65536 * (b[k + 2] as u32) + 16777216 * (
    b[k + 3] as u32);
    v
}

fn read_hash(b: &[u8], k: usize) -> (r: [u8; 32])
    requires
        k + 32 <= b@.len(),
    ensures
        r@ == b@.subrange(k as int, k + 32),
{
    let n = b.len();
    let mut r: [u8; 32] = [0u8; 32];
    let mut i: usize = 0;
    while i < 32
        invariant
            0 <= i <= 32,
            n == b@.len(),
            k + 32 <= n,
            r@.len() == 32,
            forall|j: int| 0 <= j < i ==> r@[j] == b@[k + j],
        decreases 32 - i,
    {
        r[i] = b[k + i];
        i = i + 1;
    }
    proof {
        assert(r@ =~= b@.subrange(k as int, k + 32));
    }
    r
}

/// Copies `len` bytes starting at `start`.
pub fn copy_range(b: &[u8], start: usize, len: usize) -> (r: Vec<u8>)
    requires
        start + len <= b@.len(),
    ensures
        r@ == b@.subrange(start as int, start + len),
{
    let n = b.len();
    let mut r: Vec<u8> = Vec::with_capacity(len);
    let mut i: usize = 0;
    while i < len
        invariant
            0 <= i <= len,
            n == b@.len(),
            start + len <= n,
            r@ == b@.subrange(start as int, start + i),
        decreases len - i,
    {
        r.push(b[start + i]);
        i = i + 1;
        proof {
            assert(r@ =~= b@.subrange(start as int, start + i));
        }
    }
    r
}

impl BlockHeader {
    /// Reads a header from its serialization; only exactly 80 bytes form one.
    pub fn parse(raw: &[u8]) -> (r: Option<BlockHeader>)
        ensures
            r is Some <==> raw@.len() == HEADER_BYTES,
            r matches Some(h) ==> header_fields_of(raw@, h),
    {
        if raw.len() != HEADER_BYTES {
            return None;
        }
        Some(
            BlockHeader {
                version: read_u32_le(raw, 0),
                prev_blockhash: read_hash(raw, 4),
                merkle_root: read_hash(raw, 36),
                time: read_u32_le(raw, 68),
                bits: read_u32_le(raw, 72),
                nonce: read_u32_le(raw, 76),
            },
        )
    }
}

} // verus!
