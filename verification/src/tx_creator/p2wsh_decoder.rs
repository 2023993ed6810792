//! Reading data back out of a P2WSH CHECKMULTISIG witness script.
use vstd::prelude::*;
use crate::script::{OP_CHECKMULTISIG};
use crate::utils::bytes::{append_bytes, byte_seqs, copy_range};
use crate::utils::transaction::TxData;

verus! {

/// Errors of the P2WSH decoder.
#[derive(Debug, Clone, Copy, PartialEq, Eq, Structural)]
pub enum P2wshDecodeError {
    /// The transaction has no inputs.
    NoInputs,
    /// The first input has no witness data.
    NoWitness,
    /// The first input's witness has this many elements, fewer than three.
    WitnessTooShort(usize),
    /// The witness script is empty.
    ScriptTooShort,
    /// A push runs past the end of the script.
    PushBeyondScript,
    /// The script holds an opcode that is no push, OP_N or OP_CHECKMULTISIG.
    UnexpectedOpcode(u8),
    /// The script pushes no public key.
    NoPubkeys,
    /// The fake public key at `index` is `len` bytes long, not 33.
    InvalidPubkeyLength { index: usize, len: usize },
    /// The fake public key at `index` starts with `prefix`, neither 0x02 nor 0x03.
    InvalidPubkeyPrefix { index: usize, prefix: u8 },
    /// The decoded bytes do not start with the "444" marker.
    MissingPrefix,
}

/// Whether a one-byte push sits at `pos` directly before OP_CHECKMULTISIG: the
/// key count of a script with more than 16 keys, which is no key.
pub open spec fn spec_count_push_at(s: Seq<u8>, pos: int) -> bool {
    0 <= pos && pos + 2 < s.len() && s[pos] == 0x01 && s[pos + 2] == OP_CHECKMULTISIG
}

/// Reading the pushes of a script from `pos` on, after the pushes `acc`: it
/// stops at the end, at OP_CHECKMULTISIG, at OP_1 to OP_16 or at a pushed key
/// count; a direct push (opcode 1 to 75) adds its bytes; any other opcode is an
/// error.
pub open spec fn spec_read_pushes(s: Seq<u8>, pos: int, acc: Seq<Seq<u8>>) -> Result<Seq<Seq<u8>>, P2wshDecodeError>
    decreases s.len() - pos,
{
    if pos < 0 || pos >= s.len() {
        Ok(acc)
    } else if s[pos] == OP_CHECKMULTISIG || (0x51 <= s[pos] && s[pos] <= 0x60) || spec_count_push_at(s, pos) {
        Ok(acc)
    } else if 0x01 <= s[pos] && s[pos] <= 0x4b {
        let n = s[pos] as int;
        if pos + 1 + n > s.len() {
            Err(P2wshDecodeError::PushBeyondScript)
        } else {
            spec_read_pushes(s, pos + 1 + n, acc.push(s.subrange(pos + 1, pos + 1 + n)))
        }
    } else {
        Err(P2wshDecodeError::UnexpectedOpcode(s[pos]))
    }
}

/// The fake public keys of a witness script: its first byte (OP_1) is
/// skipped, the pushes are read, and the first, the real key, is dropped.
pub open spec fn spec_extract_fake_pubkeys(s: Seq<u8>) -> Result<Seq<Seq<u8>>, P2wshDecodeError> {
    if s.len() == 0 {
        Err(P2wshDecodeError::ScriptTooShort)
    } else {
        match spec_read_pushes(s, 1, Seq::empty()) {
            Err(e) => Err(e),
            Ok(keys) => if keys.len() == 0 {
                Err(P2wshDecodeError::NoPubkeys)
            } else {
                Ok(keys.drop_first())
            },
        }
    }
}

/// The view of a result that holds byte vectors.
pub open spec fn keys_result_view(r: Result<Vec<Vec<u8>>, P2wshDecodeError>) -> Result<Seq<Seq<u8>>, P2wshDecodeError> {
    match r {
        Ok(v) => Ok(byte_seqs(v@)),
        Err(e) => Err(e),
    }
}

/// Extracts fake pubkeys from a CHECKMULTISIG witnessScript.
///
/// Expected format: OP_1 <real_pk> <fake_pk1> ... <fake_pkN> OP_N OP_CHECKMULTISIG,
/// where a count above 16 is pushed as one byte. All pubkeys except the first
/// one (the real signing key) are returned.
pub fn extract_fake_pubkeys_from_script(script_bytes: &[u8]) -> (r: Result<Vec<Vec<u8>>, P2wshDecodeError>)
    ensures
        keys_result_view(r) == spec_extract_fake_pubkeys(script_bytes@),
{
    let ghost s = script_bytes@;
    if script_bytes.len() == 0 {
        return Err(P2wshDecodeError::ScriptTooShort);
    }
    let mut pubkeys: Vec<Vec<u8>> = Vec::new();
    let mut pos: usize = 1;
    assert(byte_seqs(pubkeys@) =~= Seq::<Seq<u8>>::empty());
    while pos < script_bytes.len()
        invariant
            1 <= pos <= script_bytes@.len(),
            s == script_bytes@,
            spec_read_pushes(s, 1, Seq::empty()) == spec_read_pushes(s, pos as int, byte_seqs(pubkeys@)),
        ensures
            spec_read_pushes(s, 1, Seq::empty()) == Ok::<Seq<Seq<u8>>, P2wshDecodeError>(byte_seqs(pubkeys@)),
        decreases script_bytes@.len() - pos,
    {
        let opcode = script_bytes[pos];
        if opcode == OP_CHECKMULTISIG {
            break;
        }
        if opcode >= 0x51 && opcode <= 0x60 {
            break;
        }
        if opcode == 0x01 && script_bytes.len() - pos > 2 && script_bytes[pos + 2] == OP_CHECKMULTISIG {
            break;
        }
        if opcode >= 0x01 && opcode <= 0x4b {
            pos = pos + 1;
            if opcode as usize > script_bytes.len() - pos {
                return Err(P2wshDecodeError::PushBeyondScript);
            }
            let pubkey = copy_range(script_bytes, pos, pos + opcode as usize);
            let ghost before = pubkeys@;
            pubkeys.push(pubkey);
            assert(byte_seqs(pubkeys@) =~= byte_seqs(before).push(pubkey@));
            pos = pos + opcode as usize;
        } else {
            return Err(P2wshDecodeError::UnexpectedOpcode(opcode));
        }
    }
    if pubkeys.len() == 0 {
        return Err(P2wshDecodeError::NoPubkeys);
    }
    let ghost all = pubkeys@;
    pubkeys.remove(0);
    assert(byte_seqs(pubkeys@) =~= byte_seqs(all).drop_first());
    Ok(pubkeys)
}

/// The first fake public key from `i` on that is not 33 bytes starting with
/// 0x02 or 0x03, as the error it gives.
pub open spec fn spec_first_bad_key(keys: Seq<Seq<u8>>, i: int) -> Option<P2wshDecodeError>
    decreases keys.len() - i,
{
    if i < 0 || i >= keys.len() {
        None
    } else if keys[i].len() != 33 {
        Some(P2wshDecodeError::InvalidPubkeyLength { index: i as usize, len: keys[i].len() as usize })
    } else if keys[i][0] != 0x02 && keys[i][0] != 0x03 {
        Some(P2wshDecodeError::InvalidPubkeyPrefix { index: i as usize, prefix: keys[i][0] })
    } else {
        spec_first_bad_key(keys, i + 1)
    }
}

/// The 32 data bytes of each key, one after the other.
pub open spec fn spec_key_bodies(keys: Seq<Seq<u8>>) -> Seq<u8>
    decreases keys.len(),
{
    if keys.len() == 0 {
        Seq::empty()
    } else {
        spec_key_bodies(keys.drop_last()) + keys.last().subrange(1, 33)
    }
}

/// `d` without its trailing zero bytes, keeping at least one byte.
pub open spec fn spec_strip_zeros(d: Seq<u8>) -> Seq<u8>
    decreases d.len(),
{
    if d.len() > 1 && d.last() == 0 {
        spec_strip_zeros(d.drop_last())
    } else {
        d
    }
}

/// What decoding fake public keys gives: the first malformed key's error, else
/// their data bytes without trailing zeros.
pub open spec fn spec_decode_fake_pubkeys(keys: Seq<Seq<u8>>) -> Result<Seq<u8>, P2wshDecodeError> {
    match spec_first_bad_key(keys, 0) {
        Some(e) => Err(e),
        None => Ok(spec_strip_zeros(spec_key_bodies(keys))),
    }
}

/// The view of a result that holds bytes.
pub open spec fn data_result_view(r: Result<Vec<u8>, P2wshDecodeError>) -> Result<Seq<u8>, P2wshDecodeError> {
    match r {
        Ok(v) => Ok(v@),
        Err(e) => Err(e),
    }
}

/// What reading the data bytes of fake public keys gives: the first malformed
/// key's error, else their 32 data bytes each, one after the other.
pub open spec fn spec_fake_pubkey_bodies(keys: Seq<Seq<u8>>) -> Result<Seq<u8>, P2wshDecodeError> {
    match spec_first_bad_key(keys, 0) {
        Some(e) => Err(e),
        None => Ok(spec_key_bodies(keys)),
    }
}

/// Checks that every fake public key is 33 bytes starting with 0x02 or 0x03,
/// and returns their 32 data bytes each, one after the other.
pub fn fake_pubkey_bodies(fake_pubkeys: &[Vec<u8>]) -> (r: Result<Vec<u8>, P2wshDecodeError>)
    ensures
        data_result_view(r) == spec_fake_pubkey_bodies(byte_seqs(fake_pubkeys@)),
{
    let ghost keys = byte_seqs(fake_pubkeys@);
    let mut data: Vec<u8> = Vec::new();
    let mut i: usize = 0;
    assert(keys.take(0) =~= Seq::<Seq<u8>>::empty());
    while i < fake_pubkeys.len()
        invariant
            i <= fake_pubkeys@.len(),
            keys == byte_seqs(fake_pubkeys@),
            spec_first_bad_key(keys, 0) == spec_first_bad_key(keys, i as int),
            data@ == spec_key_bodies(keys.take(i as int)),
        decreases fake_pubkeys@.len() - i,
    {
        let pubkey = fake_pubkeys[i].as_slice();
        assert(keys[i as int] == pubkey@);
        if pubkey.len() != 33 {
            return Err(P2wshDecodeError::InvalidPubkeyLength { index: i, len: pubkey.len() });
        }
        let prefix = pubkey[0];
        if prefix != 0x02 && prefix != 0x03 {
            return Err(P2wshDecodeError::InvalidPubkeyPrefix { index: i, prefix });
        }
        append_bytes(&mut data, &pubkey[1..33]);
        assert(keys.take(i + 1).drop_last() =~= keys.take(i as int));
        i = i + 1;
    }
    assert(keys.take(i as int) =~= keys);
    Ok(data)
}

/// Removes the trailing zero bytes of `data`, keeping at least one byte.
pub fn strip_trailing_zeros(data: &mut Vec<u8>)
    ensures
        final(data)@ == spec_strip_zeros(old(data)@),
{
    while data.len() > 1 && data[data.len() - 1] == 0
        invariant
            spec_strip_zeros(data@) == spec_strip_zeros(old(data)@),
        decreases data@.len(),
    {
        let ghost before = data@;
        data.pop();
        assert(data@ =~= before.drop_last());
    }
}

/// Decodes fake pubkeys back into the data they carry.
///
/// Each fake pubkey is 33 bytes: 0x02/0x03 prefix + 32 bytes of data; the 32
/// data bytes of each are kept, and trailing null padding is removed.
pub fn decode_fake_pubkeys(fake_pubkeys: &[Vec<u8>]) -> (r: Result<Vec<u8>, P2wshDecodeError>)
    ensures
        data_result_view(r) == spec_decode_fake_pubkeys(byte_seqs(fake_pubkeys@)),
{
    let mut data = match fake_pubkey_bodies(fake_pubkeys) {
        Ok(d) => d,
        Err(e) => return Err(e),
    };
    strip_trailing_zeros(&mut data);
    Ok(data)
}

/// What decoding the first input of a transaction gives: it must have a
/// witness of at least three elements, whose last is the witness script.
pub open spec fn spec_decode_p2wsh(witnesses: Seq<Seq<Seq<u8>>>) -> Result<Seq<u8>, P2wshDecodeError> {
    if witnesses.len() == 0 {
        Err(P2wshDecodeError::NoInputs)
    } else if witnesses[0].len() == 0 {
        Err(P2wshDecodeError::NoWitness)
    } else if witnesses[0].len() < 3 {
        Err(P2wshDecodeError::WitnessTooShort(witnesses[0].len() as usize))
    } else {
        match spec_extract_fake_pubkeys(witnesses[0].last()) {
            Err(e) => Err(e),
            Ok(keys) => spec_decode_fake_pubkeys(keys),
        }
    }
}

/// Decodes the data that a P2WSH CHECKMULTISIG spend reveals in the witness
/// script of its first input.
pub fn decode_p2wsh_witness(tx: &TxData) -> (r: Result<Vec<u8>, P2wshDecodeError>)
    ensures
        data_result_view(r) == spec_decode_p2wsh(tx.witnesses()),
{
    if tx.input_witnesses.len() == 0 {
        return Err(P2wshDecodeError::NoInputs);
    }
    let witness = &tx.input_witnesses[0];
    assert(tx.witnesses()[0] == byte_seqs(witness@));
    if witness.len() == 0 {
        return Err(P2wshDecodeError::NoWitness);
    }
    if witness.len() < 3 {
        return Err(P2wshDecodeError::WitnessTooShort(witness.len()));
    }
    let script = witness[witness.len() - 1].as_slice();
    let fake_pubkeys = match extract_fake_pubkeys_from_script(script) {
        Ok(keys) => keys,
        Err(e) => return Err(e),
    };
    decode_fake_pubkeys(fake_pubkeys.as_slice())
}

} // verus!
