//! The single-input P2WSH CHECKMULTISIG encoder of the transaction creator.
use vstd::prelude::*;
use crate::techniques::p2wsh_fake_multisig::encode::{
    P2wshEncodeError, build_multisig_witnessscript, encode_data_as_fake_pubkeys, script_result_view,
    spec_fake_pubkeys, spec_multisig_script,
};

verus! {

/// Standard transaction fee in satoshis.
pub const TX_FEE_SATS: u64 = 1000;

/// Maximum data capacity (19 fake pubkeys, 1 real pubkey for signing).
pub const MAX_DATA_CAPACITY: usize = 608;

/// The amount sent to the P2WSH output.
pub const FUNDING_AMOUNT: u64 = 100_000;

/// What building the witness script for `d` gives: an error above 608 bytes,
/// else the 1-of-N script of its fake public keys behind the real key.
pub open spec fn spec_witness_script_for(d: Seq<u8>, key: Seq<u8>) -> Result<Seq<u8>, P2wshEncodeError> {
    if d.len() > MAX_DATA_CAPACITY {
        Err(P2wshEncodeError::DataTooLarge(d.len() as usize))
    } else {
        Ok(spec_multisig_script(key, spec_fake_pubkeys(d)))
    }
}

/// Encodes `data` as fake public keys and builds the witness script that
/// carries them, with the real public key given by its bytes.
pub fn witness_script_for_data(data: &[u8], real_pubkey: &[u8]) -> (r: Result<Vec<u8>, P2wshEncodeError>)
    requires
        real_pubkey@.len() < 0x1_0000_0000,
    ensures
        script_result_view(r) == spec_witness_script_for(data@, real_pubkey@),
{
    if data.len() > MAX_DATA_CAPACITY {
        return Err(P2wshEncodeError::DataTooLarge(data.len()));
    }
    let fake_pubkeys = match encode_data_as_fake_pubkeys(data) {
        Ok(keys) => keys,
        Err(e) => return Err(e),
    };
    let ghost fakes = spec_fake_pubkeys(data@);
    assert(fakes.len() <= 19);
    assert(forall|i: int| 0 <= i < fakes.len() ==> (#[trigger] fakes[i]).len() == 33);
    build_multisig_witnessscript(real_pubkey, fake_pubkeys.as_slice())
}

/// The change of the funding transaction: the funding output less the P2WSH
/// amount and the fee.
pub fn funding_change(input_amount: u64) -> (r: Result<u64, P2wshEncodeError>)
    ensures
        input_amount < FUNDING_AMOUNT + TX_FEE_SATS ==> r == Err::<u64, P2wshEncodeError>(
            P2wshEncodeError::InsufficientFunds { required: (FUNDING_AMOUNT + TX_FEE_SATS) as u64, available: input_amount },
        ),
        input_amount >= FUNDING_AMOUNT + TX_FEE_SATS ==> r == Ok::<u64, P2wshEncodeError>(
            (input_amount - FUNDING_AMOUNT - TX_FEE_SATS) as u64,
        ),
{
    let total_out = FUNDING_AMOUNT + TX_FEE_SATS;
    if input_amount < total_out {
        return Err(P2wshEncodeError::InsufficientFunds { required: total_out, available: input_amount });
    }
    Ok(input_amount - total_out)
}


/// The output of the spending transaction: the P2WSH output less the fee; none
/// when the output cannot pay the fee.
pub fn spend_output_amount(input_amount: u64) -> (r: Option<u64>)
    ensures
        r == if input_amount >= TX_FEE_SATS {
            Some((input_amount - TX_FEE_SATS) as u64)
        } else {
            None::<u64>
        },
{
    input_amount.checked_sub(TX_FEE_SATS)
}

} // verus!
