//! The parts of a transaction that the detectors and decoders read, and the
//! fee arithmetic shared by the encoders.
use vstd::prelude::*;
use crate::utils::bytes::{byte_seqs, starts_with};

verus! {

/// Standard transaction fee in satoshis (for simple transactions).
pub const TX_FEE_SATS: u64 = 1000;

/// A transaction as the detectors and decoders see it: the script of each
/// output, and the witness stack of each input.
#[derive(Debug)]
pub struct TxData {
    pub output_scripts: Vec<Vec<u8>>,
    pub input_witnesses: Vec<Vec<Vec<u8>>>,
}

impl TxData {
    /// The bytes of the output scripts.
    pub open spec fn scripts(&self) -> Seq<Seq<u8>> {
        byte_seqs(self.output_scripts@)
    }

    /// The witness stack of each input, as byte sequences.
    pub open spec fn witnesses(&self) -> Seq<Seq<Seq<u8>>> {
        self.input_witnesses@.map_values(|w: Vec<Vec<u8>>| byte_seqs(w@))
    }
}

/// An output of an earlier transaction that an input spends: the bytes of
/// that transaction's id and the output's position in it.
#[derive(Debug, Clone)]
pub struct OutPointData {
    pub txid: Vec<u8>,
    pub vout: u32,
}

/// Whether one of the inputs `prevouts` spends output `vout` of the
/// transaction whose id has the bytes `txid`.
pub open spec fn spec_spends(prevouts: Seq<OutPointData>, txid: Seq<u8>, vout: u32) -> bool {
    exists|i: int| 0 <= i < prevouts.len() && (#[trigger] prevouts[i]).txid@ == txid && prevouts[i].vout == vout
}

/// Whether a transaction whose inputs spend `prevouts` spends output `vout`
/// of the transaction with id `txid`.
pub fn spends_output(prevouts: &[OutPointData], txid: &[u8], vout: u32) -> (r: bool)
    ensures
        r == spec_spends(prevouts@, txid@, vout),
{
    let mut i: usize = 0;
    while i < prevouts.len()
        invariant
            i <= prevouts@.len(),
            forall|k: int| 0 <= k < i ==> !((#[trigger] prevouts@[k]).txid@ == txid@ && prevouts@[k].vout == vout),
        decreases prevouts@.len() - i,
    {
        let p = &prevouts[i];
        if p.vout == vout && p.txid.len() == txid.len() && starts_with(p.txid.as_slice(), txid) {
            assert(p.txid@ =~= txid@) by {
                assert(p.txid@.take(txid@.len() as int) =~= p.txid@);
            }
            assert(prevouts@[i as int] == *p);
            return true;
        }
        proof {
            if p.txid@ == txid@ && p.vout == vout {
                assert(p.txid@.take(txid@.len() as int) =~= p.txid@);
            }
        }
        i = i + 1;
    }
    false
}

/// The fee for a transaction of `weight` weight units at `fee_rate` satoshis per
/// virtual byte, a virtual byte being four weight units, rounded up.
pub open spec fn spec_fee_from_weight(weight: int, fee_rate: int) -> int {
    ((weight + 3) / 4) * fee_rate
}

/// Calculates the fee for a transaction based on its weight and fee rate
/// (satoshis per virtual byte).
pub fn calculate_fee_from_weight(weight: u64, fee_rate: u64) -> (fee: u64)
    requires
        weight + 3 <= u64::MAX,
        spec_fee_from_weight(weight as int, fee_rate as int) <= u64::MAX,
    ensures
        fee == spec_fee_from_weight(weight as int, fee_rate as int),
{
    let vbytes = (weight + 3) / 4;
    vbytes * fee_rate
}


/// The fee is the weight in virtual bytes (four weight units each, a started
/// one counting whole) times the fee rate.
pub proof fn law_fee_counts_whole_vbytes(weight: nat, fee_rate: nat)
    ensures
        4 * spec_fee_from_weight(weight as int, 1) >= weight,
        4 * spec_fee_from_weight(weight as int, 1) < weight + 4,
        spec_fee_from_weight(weight as int, fee_rate as int) == fee_rate * spec_fee_from_weight(weight as int, 1),
{
    let v = (weight + 3) / 4;
    assert(4 * v <= weight + 3 && weight + 3 < 4 * v + 4) by (nonlinear_arith)
        requires
            v == (weight + 3) / 4,
    ;
    assert(v * fee_rate == fee_rate * v) by (nonlinear_arith);
}

} // verus!
