//! Script bytes: the push encoding that `bitcoin` writes, and the calls into
//! its script builder that the encoders use.
use vstd::prelude::*;
use bitcoin::script::{Builder, PushBytesBuf};
use bitcoin::opcodes::Opcode;
use bitcoin::{Script, ScriptBuf};

verus! {

/// OP_RETURN.
pub const OP_RETURN: u8 = 0x6a;

/// OP_PUSHDATA1, OP_PUSHDATA2, OP_PUSHDATA4.
pub const OP_PUSHDATA1: u8 = 0x4c;
pub const OP_PUSHDATA2: u8 = 0x4d;
pub const OP_PUSHDATA4: u8 = 0x4e;

/// OP_1 (OP_PUSHNUM_1) and OP_CHECKMULTISIG.
pub const OP_PUSHNUM_1: u8 = 0x51;
pub const OP_CHECKMULTISIG: u8 = 0xae;

/// The opcode bytes that announce a data push of `n` bytes: a direct push below
/// 76 bytes, then OP_PUSHDATA1, OP_PUSHDATA2 and OP_PUSHDATA4 with a little-endian length.
pub open spec fn spec_push_prefix(n: nat) -> Seq<u8> {
    if n < 76 {
        seq![n as u8]
    } else if n < 0x100 {
        seq![OP_PUSHDATA1, n as u8]
    } else if n < 0x10000 {
        seq![OP_PUSHDATA2, (n % 0x100) as u8, (n / 0x100) as u8]
    } else {
        seq![
            OP_PUSHDATA4,
            (n % 0x100) as u8,
            ((n / 0x100) % 0x100) as u8,
            ((n / 0x10000) % 0x100) as u8,
            (n / 0x1000000) as u8,
        ]
    }
}

/// The bytes of a push of `data`.
pub open spec fn spec_push(data: Seq<u8>) -> Seq<u8> {
    spec_push_prefix(data.len()) + data
}

/// Whether a script is an OP_RETURN output script: its first byte is OP_RETURN.
pub open spec fn spec_is_op_return(script: Seq<u8>) -> bool {
    script.len() > 0 && script[0] == OP_RETURN
}

/// Calls `Script::is_op_return` on the script with these bytes. The contract
/// claims what its source shows: the first byte exists and is OP_RETURN.
#[verifier::external_body]
pub(crate) fn is_op_return(script: &[u8]) -> (r: bool)
    ensures
        r == spec_is_op_return(script@),
{
    Script::from_bytes(script).is_op_return()
}

/// Calls `ScriptBuf::new_op_return` on `data` and returns the script's bytes. The
/// contract claims what its source shows: OP_RETURN followed by a push of `data`.
#[verifier::external_body]
pub(crate) fn op_return_script(data: &[u8]) -> (r: Vec<u8>)
    requires
        data@.len() < 0x1_0000_0000,
    ensures
        r@ == seq![OP_RETURN] + spec_push(data@),
{
    let push = PushBytesBuf::try_from(data.to_vec()).expect("length below 2^32");
    ScriptBuf::new_op_return(push).into_bytes()
}

/// Calls `Builder::push_slice` on a builder holding `script`. The contract
/// claims what its source shows: the push of `data` is appended.
#[verifier::external_body]
pub(crate) fn script_push_slice(script: Vec<u8>, data: &[u8]) -> (r: Vec<u8>)
    requires
        data@.len() < 0x1_0000_0000,
    ensures
        r@ == script@ + spec_push(data@),
{
    let push = PushBytesBuf::try_from(data.to_vec()).expect("length below 2^32");
    Builder::from(script).push_slice(push).into_bytes()
}

/// Calls `Builder::push_opcode` on a builder holding `script`. The contract
/// claims what its source shows: the opcode's byte is appended.
#[verifier::external_body]
pub(crate) fn script_push_opcode(script: Vec<u8>, opcode: u8) -> (r: Vec<u8>)
    ensures
        r@ == script@.push(opcode),
{
    Builder::from(script).push_opcode(Opcode::from(opcode)).into_bytes()
}

/// Calls `Builder::push_int` on a builder holding `script`, for a number from 17
/// to 127. The contract claims what its source shows for these numbers: no
/// dedicated opcode exists, so the one-byte script number is pushed.
#[verifier::external_body]
pub(crate) fn script_push_int(script: Vec<u8>, n: u8) -> (r: Vec<u8>)
    requires
        17 <= n <= 127,
    ensures
        r@ == script@ + seq![1u8, n],
{
    Builder::from(script).push_int(n as i64).into_bytes()
}

} // verus!
