//! Recognising the output scripts that commit to a 32-byte hash, and
//! reading that commitment.
use vstd::prelude::*;

verus! {

/// The output-script shapes that carry a commitment.
#[derive(Clone, Copy, Debug, PartialEq, Eq, Structural)]
pub enum ScriptKind {
    /// Pay to witness script hash: `OP_0 <32 bytes>`.
    WitnessScriptHash,
    /// Pay to script hash: `OP_HASH160 <20 bytes> OP_EQUAL`.
    ScriptHash,
    /// Pay to taproot: `OP_1 <32 bytes>`.
    Taproot,
    /// Any other script.
    Other,
}

pub open spec fn script_kind_of(s: Seq<u8>) -> ScriptKind {
    if s.len() == 34 && s[0] == 0x00 && s[1] == 0x20 {
        ScriptKind::WitnessScriptHash
    } else if s.len() == 23 && s[0] == 0xa9 && s[1] == 0x14 && s[22] == 0x87 {
        ScriptKind::ScriptHash
    } else if s.len() == 34 && s[0] == 0x51 && s[1] == 0x20 {
        ScriptKind::Taproot
    } else {
        ScriptKind::Other
    }
}

/// The 32-byte commitment a script carries: the payload of a witness or
/// taproot script as it stands, the 20-byte payload of a script-hash script
/// followed by twelve zero bytes.
pub open spec fn commitment_of(s: Seq<u8>) -> Option<Seq<u8>> {
    match script_kind_of(s) {
        ScriptKind::WitnessScriptHash => Some(s.subrange(2, 34)),
        ScriptKind::Taproot => Some(s.subrange(2, 34)),
        ScriptKind::ScriptHash => Some(s.subrange(2, 22) + Seq::new(12, |i: int| 0u8)),
        ScriptKind::Other => None,
    }
}

/// Classifies an output script by its shape.
pub fn classify_script(script: &[u8]) -> (r: ScriptKind)
    ensures
        r == script_kind_of(script@),
{
    let n = script.len();
    if n == 34 && script[0] == 0x00 && script[1] == 0x20 {
        ScriptKind::WitnessScriptHash
    } else if n == 23 && script[0] == 0xa9 && script[1] == 0x14 && script[22] == 0x87 {
        ScriptKind::ScriptHash
    } else if n == 34 && script[0] == 0x51 && script[1] == 0x20 {
        ScriptKind::Taproot
    } else {
        ScriptKind::Other
    }
}

/// Extracts the commitment hash of an output script, if it has one.
pub fn extract_commitment(script: &[u8]) -> (r: Option<[u8; 32]>)
    ensures
        match r {
            Some(c) => commitment_of(script@) == Some(c@),
            None => commitment_of(script@) is None,
        },
{
    let kind = classify_script(script);
    match kind {
        ScriptKind::Other => None,
        ScriptKind::ScriptHash => {
            let mut out: [u8; 32] = [0u8; 32];
            let mut i: usize = 0;
            while i < 20
                invariant
                    0 <= i <= 20,
                    script@.len() == 23,
                    out@.len() == 32,
                    forall|j: int| 0 <= j < i ==> out@[j] == script@[j + 2],
                    forall|j: int| 20 <= j < 32 ==> out@[j] == 0,
                decreases 20 - i,
            {
                out[i] = script[i + 2];
                i = i + 1;
            }
            proof {
                assert(out@ =~= script@.subrange(2, 22) + Seq::new(12, |i: int| 0u8));
            }
            Some(out)
        },
        _ => {
            let mut out: [u8; 32] = [0u8; 32];
            let mut i: usize = 0;
            while i < 32
                invariant
                    0 <= i <= 32,
                    script@.len() == 34,
                    out@.len() == 32,
                    forall|j: int| 0 <= j < i ==> out@[j] == script@[j + 2],
                decreases 32 - i,
            {
                out[i] = script[i + 2];
                i = i + 1;
            }
            proof {
                assert(out@ =~= script@.subrange(2, 34));
            }
            Some(out)
        },
    }
}

/// Whether an output script commits to `expected_hash`.
pub fn verify_output_script(script: &[u8], expected_hash: &[u8; 32]) -> (r: bool)
    ensures
        r == (commitment_of(script@) == Some(expected_hash@)),
{
    match extract_commitment(script) {
        None => false,
        Some(c) => {
            let mut k: usize = 0;
            while k < 32
                invariant
                    0 <= k <= 32,
                    forall|j: int| 0 <= j < k ==> c@[j] == expected_hash@[j],
                    commitment_of(script@) == Some(c@),
                decreases 32 - k,
            {
                if c[k] != expected_hash[k] {
                    proof {
                        assert(c@[k as int] != expected_hash@[k as int]);
                        assert(c@ != expected_hash@);
                    }
                    return false;
                }
                k = k + 1;
            }
            proof {
                assert(c@ =~= expected_hash@);
            }
            true
        },
    }
}

} // verus!
