//! Reading data back out of the witness scripts of every input of a P2WSH spend.
use vstd::prelude::*;
use crate::techniques::{ORDIKNOT_PREFIX, spec_ordiknot_prefix};
use crate::utils::bytes::{byte_seqs, starts_with, copy_range};
use crate::utils::transaction::TxData;
use crate::tx_creator::p2wsh_decoder::{
    P2wshDecodeError, data_result_view, extract_fake_pubkeys_from_script, fake_pubkey_bodies,
    spec_extract_fake_pubkeys, spec_fake_pubkey_bodies, spec_strip_zeros, strip_trailing_zeros,
};
use crate::utils::bytes::append_bytes;

verus! {

/// What one input's witness gives: at least three elements, the last being a
/// multisig witness script, whose fake public keys' data bytes are returned.
pub open spec fn spec_input_bodies(w: Seq<Seq<u8>>) -> Result<Seq<u8>, P2wshDecodeError> {
    if w.len() == 0 {
        Err(P2wshDecodeError::NoWitness)
    } else if w.len() < 3 {
        Err(P2wshDecodeError::WitnessTooShort(w.len() as usize))
    } else {
        match spec_extract_fake_pubkeys(w.last()) {
            Err(e) => Err(e),
            Ok(keys) => spec_fake_pubkey_bodies(keys),
        }
    }
}

/// The data bytes of the inputs' witnesses, one input after the other; the
/// error of the first input that fails.
pub open spec fn spec_all_bodies(ws: Seq<Seq<Seq<u8>>>) -> Result<Seq<u8>, P2wshDecodeError>
    decreases ws.len(),
{
    if ws.len() == 0 {
        Ok(Seq::empty())
    } else {
        match spec_all_bodies(ws.drop_last()) {
            Err(e) => Err(e),
            Ok(b) => match spec_input_bodies(ws.last()) {
                Err(e) => Err(e),
                Ok(x) => Ok(b + x),
            },
        }
    }
}

/// What decoding a P2WSH spend gives: the data bytes of every input, trailing
/// zero padding removed, must start with the "444" marker, which is dropped.
pub open spec fn spec_decode_witnesses(ws: Seq<Seq<Seq<u8>>>) -> Result<Seq<u8>, P2wshDecodeError> {
    if ws.len() == 0 {
        Err(P2wshDecodeError::NoInputs)
    } else {
        match spec_all_bodies(ws) {
            Err(e) => Err(e),
            Ok(b) => {
                let t = spec_strip_zeros(b);
                if t.len() >= 3 && t.take(3) == spec_ordiknot_prefix() {
                    Ok(t.skip(3))
                } else {
                    Err(P2wshDecodeError::MissingPrefix)
                }
            },
        }
    }
}

/// The data bytes of the fake public keys in one input's witness script.
pub fn input_bodies(witness: &Vec<Vec<u8>>) -> (r: Result<Vec<u8>, P2wshDecodeError>)
    ensures
        data_result_view(r) == spec_input_bodies(byte_seqs(witness@)),
{
    if witness.len() == 0 {
        return Err(P2wshDecodeError::NoWitness);
    }
    if witness.len() < 3 {
        return Err(P2wshDecodeError::WitnessTooShort(witness.len()));
    }
    let script = witness[witness.len() - 1].as_slice();
    assert(byte_seqs(witness@).last() == script@);
    let keys = match extract_fake_pubkeys_from_script(script) {
        Ok(k) => k,
        Err(e) => return Err(e),
    };
    fake_pubkey_bodies(keys.as_slice())
}

/// Decodes the data that a P2WSH fake-multisig spend reveals: the fake public
/// keys of every input's witness script, in input order, with the padding and
/// the "444" marker removed.
pub fn decode_witnesses(tx: &TxData) -> (r: Result<Vec<u8>, P2wshDecodeError>)
    ensures
        data_result_view(r) == spec_decode_witnesses(tx.witnesses()),
{
    let ghost ws = tx.witnesses();
    if tx.input_witnesses.len() == 0 {
        return Err(P2wshDecodeError::NoInputs);
    }
    let mut all: Vec<u8> = Vec::new();
    let mut i: usize = 0;
    assert(ws.take(0) =~= Seq::<Seq<Seq<u8>>>::empty());
    while i < tx.input_witnesses.len()
        invariant
            i <= tx.input_witnesses@.len(),
            ws == tx.witnesses(),
            spec_all_bodies(ws.take(i as int)) == Ok::<Seq<u8>, P2wshDecodeError>(all@),
        decreases tx.input_witnesses@.len() - i,
    {
        assert(ws.take(i + 1).drop_last() =~= ws.take(i as int));
        assert(ws.take(i + 1).last() == byte_seqs(tx.input_witnesses@[i as int]@));
        let body = match input_bodies(&tx.input_witnesses[i]) {
            Ok(b) => b,
            Err(e) => {
                proof {
                    lemma_bodies_error_stays(ws, i as int + 1);
                }
                return Err(e);
            },
        };
        append_bytes(&mut all, body.as_slice());
        i = i + 1;
    }
    assert(ws.take(i as int) =~= ws);
    strip_trailing_zeros(&mut all);
    if all.len() >= 3 && starts_with(all.as_slice(), &ORDIKNOT_PREFIX) {
        assert(ORDIKNOT_PREFIX@ == spec_ordiknot_prefix());
        let data = copy_range(all.as_slice(), 3, all.len());
        assert(data@ =~= all@.skip(3));
        Ok(data)
    } else {
        assert(ORDIKNOT_PREFIX@ == spec_ordiknot_prefix());
        Err(P2wshDecodeError::MissingPrefix)
    }
}

/// Once the inputs up to `m` fail, all of them fail with the same error.
proof fn lemma_bodies_error_stays(ws: Seq<Seq<Seq<u8>>>, m: int)
    requires
        0 <= m <= ws.len(),
        spec_all_bodies(ws.take(m)) is Err,
    ensures
        spec_all_bodies(ws) == spec_all_bodies(ws.take(m)),
    decreases ws.len() - m,
{
    if m < ws.len() {
        assert(ws.take(m + 1).drop_last() =~= ws.take(m));
        lemma_bodies_error_stays(ws, m + 1);
    } else {
        assert(ws.take(m) =~= ws);
    }
}

} // verus!
