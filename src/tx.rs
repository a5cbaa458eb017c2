//! Transactions as the verifier reads them: their id and their outputs.
use vstd::prelude::*;

verus! {

/// One output of a transaction: its value and its locking script.
#[derive(Clone, Debug, PartialEq, Eq)]
pub struct TxOutput {
    pub value: u64,
    pub script_pubkey: Vec<u8>,
}

/// A decoded transaction.
#[derive(Clone, Debug, PartialEq, Eq)]
pub struct DecodedTx {
    pub txid: [u8; 32],
    pub outputs: Vec<TxOutput>,
}

/// The outputs, as values and scripts, of the transaction that `raw`
/// serializes; `None` where `raw` is no transaction.
pub uninterp spec fn decoded_outputs(raw: Seq<u8>) -> Option<Seq<(u64, Seq<u8>)>>;

/// The id of the transaction that `raw` serializes.
pub uninterp spec fn txid_of(raw: Seq<u8>) -> Seq<u8>;

pub open spec fn outputs_view(outs: Seq<TxOutput>) -> Seq<(u64, Seq<u8>)> {
    outs.map_values(|o: TxOutput| (o.value, o.script_pubkey@))
}

/// Relies on bitcoin's `consensus::deserialize::<Transaction>` (which fails
/// unless the whole input is one transaction), on `Transaction::txid`, and
/// on the value and script of each output it yields.
#[verifier::external_body]
pub(crate) fn decode_transaction(raw: &[u8]) -> (r: Option<DecodedTx>)
    ensures
        r is Some <==> decoded_outputs(raw@) is Some,
        r matches Some(t) ==> t.txid@ == txid_of(raw@) && decoded_outputs(raw@) == Some(
            outputs_view(t.outputs@),
        ),
{
    match bitcoin::consensus::deserialize::<bitcoin::Transaction>(raw) {
        Err(_) => None,
        Ok(tx) => Some(DecodedTx {
            txid: <bitcoin::Txid as bitcoin::hashes::Hash>::to_byte_array(tx.txid()),
            outputs: tx.output.iter().map(|o| TxOutput {
                value: o.value.to_sat(),
                script_pubkey: o.script_pubkey.as_bytes().to_vec(),
            }).collect(),
        }),
    }
}

} // verus!
