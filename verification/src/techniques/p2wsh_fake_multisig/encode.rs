//! Embedding data as fake public keys in 1-of-N CHECKMULTISIG witness scripts.
use vstd::prelude::*;
use crate::script::{
    script_push_int, script_push_opcode, script_push_slice, spec_push, OP_CHECKMULTISIG, OP_PUSHNUM_1,
};
use crate::techniques::{ORDIKNOT_PREFIX, spec_ordiknot_prefix};
use crate::utils::bytes::{append_bytes, append_zeros, byte_seqs, copy_range, zeros};

verus! {

/// Maximum pubkeys in CHECKMULTISIG (Bitcoin consensus).
pub const MAX_PUBKEYS_PER_MULTISIG: usize = 20;

/// Bytes per fake pubkey after prefix (compressed pubkey format).
pub const DATA_BYTES_PER_PUBKEY: usize = 32;

/// Maximum data capacity (19 fake pubkeys, 1 real pubkey for signing, minus 3
/// bytes for the prefix).
pub const MAX_DATA_CAPACITY: usize = 605;

/// Maximum data per single P2WSH input (same as MAX_DATA_CAPACITY).
pub const MAX_DATA_PER_INPUT: usize = 605;

/// Data bytes per input after the first, which carries no prefix.
pub const BYTES_PER_ADDITIONAL_INPUT: usize = 608;

/// Maximum standard transaction weight (Bitcoin Core policy).
pub const MAX_STANDARD_TX_WEIGHT: u64 = 400_000;

/// Bytes per weight unit.
pub const BYTES_PER_WEIGHT_UNIT: u64 = 4;

/// Dust threshold for P2WSH outputs (in sats).
pub const DUST_THRESHOLD: u64 = 546;

/// Errors of the P2WSH fake-multisig encoder.
#[derive(Debug, Clone, Copy, PartialEq, Eq, Structural)]
pub enum P2wshEncodeError {
    /// The transaction weighs more than the standard limit.
    WeightTooHigh(u64),
    /// A script would hold this many public keys, more than 20.
    TooManyPubkeys(usize),
    /// A public key is too long to be pushed.
    PushTooLarge,
    /// The data is this many bytes long, more than one script holds.
    DataTooLarge(usize),
    /// The funds do not cover `required` satoshis; `available` are there.
    InsufficientFunds { required: u64, available: u64 },
}

/// The number of inputs that data of `len` bytes needs: the first carries up
/// to 605 bytes after the prefix, each other input up to 608.
pub open spec fn spec_inputs_needed(len: nat) -> nat {
    if len <= MAX_DATA_PER_INPUT {
        1
    } else {
        1 + ((len - MAX_DATA_PER_INPUT) as nat + 607) / 608
    }
}

/// Calculates the number of inputs needed for given data length.
pub fn calculate_inputs_needed(data_len: usize) -> (r: usize)
    ensures
        r == spec_inputs_needed(data_len as nat),
{
    if data_len == 0 {
        return 1;
    }
    if data_len <= MAX_DATA_PER_INPUT {
        1
    } else {
        let remaining_after_first = data_len - MAX_DATA_PER_INPUT;
        let rounded_up = remaining_after_first / BYTES_PER_ADDITIONAL_INPUT + if remaining_after_first
            % BYTES_PER_ADDITIONAL_INPUT == 0 {
            0
        } else {
            1
        };
        assert(rounded_up == (remaining_after_first + 607) / 608);
        1 + rounded_up
    }
}

/// Where the bytes of input `j` (from 1 on) start in the data.
pub open spec fn spec_input_start(j: int) -> int {
    MAX_DATA_PER_INPUT + BYTES_PER_ADDITIONAL_INPUT * (j - 1)
}

/// Where the bytes of input `j` (from 1 on) end in data of `len` bytes.
pub open spec fn spec_input_end(j: int, len: int) -> int {
    if spec_input_start(j) + BYTES_PER_ADDITIONAL_INPUT <= len {
        spec_input_start(j) + BYTES_PER_ADDITIONAL_INPUT
    } else {
        len
    }
}

/// The chunk of each input: the prefix and up to 605 bytes for the first,
/// then up to 608 bytes of raw data for each other.
pub open spec fn spec_split(d: Seq<u8>) -> Seq<Seq<u8>> {
    if d.len() <= MAX_DATA_PER_INPUT {
        seq![spec_ordiknot_prefix() + d]
    } else {
        Seq::new(
            spec_inputs_needed(d.len()),
            |j: int|
                if j == 0 {
                    spec_ordiknot_prefix() + d.take(MAX_DATA_PER_INPUT as int)
                } else {
                    d.subrange(spec_input_start(j), spec_input_end(j, d.len() as int))
                },
        )
    }
}

/// Input `j` of data that needs several starts inside the data.
pub proof fn lemma_input_bounds(len: nat, j: int)
    requires
        len > MAX_DATA_PER_INPUT,
        1 <= j < spec_inputs_needed(len),
    ensures
        spec_input_start(j) < len,
        (spec_input_start(j) + BYTES_PER_ADDITIONAL_INPUT >= len) == (j == spec_inputs_needed(len) - 1),
{
    let m = (len - MAX_DATA_PER_INPUT) as int;
    let c = (m + 607) / 608;
    assert(608 * c <= m + 607 && m + 607 < 608 * c + 608) by (nonlinear_arith)
        requires
            c == (m + 607) / 608,
            m > 0,
    ;
}

/// Splits data into chunks for multiple inputs. The first chunk includes the
/// prefix, subsequent chunks are raw data.
pub fn split_data_for_inputs(data: &[u8]) -> (r: Vec<Vec<u8>>)
    ensures
        byte_seqs(r@) == spec_split(data@),
{
    if data.len() <= MAX_DATA_PER_INPUT {
        let mut chunk: Vec<u8> = Vec::new();
        append_bytes(&mut chunk, &ORDIKNOT_PREFIX);
        append_bytes(&mut chunk, data);
        assert(ORDIKNOT_PREFIX@ == spec_ordiknot_prefix());
        let mut chunks: Vec<Vec<u8>> = Vec::new();
        chunks.push(chunk);
        assert(byte_seqs(chunks@) =~= spec_split(data@));
        return chunks;
    }
    let ghost expected = spec_split(data@);
    let n = calculate_inputs_needed(data.len());
    let mut chunks: Vec<Vec<u8>> = Vec::new();
    let mut first_chunk: Vec<u8> = Vec::new();
    append_bytes(&mut first_chunk, &ORDIKNOT_PREFIX);
    append_bytes(&mut first_chunk, &data[0..MAX_DATA_PER_INPUT]);
    assert(ORDIKNOT_PREFIX@ == spec_ordiknot_prefix());
    assert(data@.subrange(0, MAX_DATA_PER_INPUT as int) =~= data@.take(MAX_DATA_PER_INPUT as int));
    chunks.push(first_chunk);
    assert(byte_seqs(chunks@) =~= expected.take(1));
    let mut j: usize = 1;
    while j < n
        invariant
            1 <= j <= n,
            n == spec_inputs_needed(data@.len()),
            data@.len() > MAX_DATA_PER_INPUT,
            expected == spec_split(data@),
            byte_seqs(chunks@) == expected.take(j as int),
        decreases n - j,
    {
        proof {
            lemma_input_bounds(data@.len(), j as int);
        }
        assert(MAX_DATA_PER_INPUT + BYTES_PER_ADDITIONAL_INPUT * (j - 1) < data.len());
        let offset = MAX_DATA_PER_INPUT + BYTES_PER_ADDITIONAL_INPUT * (j - 1);
        let end = if data.len() - offset < BYTES_PER_ADDITIONAL_INPUT {
            data.len()
        } else {
            offset + BYTES_PER_ADDITIONAL_INPUT
        };
        let piece = copy_range(data, offset, end);
        let ghost before = chunks@;
        chunks.push(piece);
        assert(byte_seqs(chunks@) =~= byte_seqs(before).push(piece@));
        j = j + 1;
        assert(byte_seqs(chunks@) =~= expected.take(j as int));
    }
    assert(expected.take(j as int) =~= expected);
    chunks
}

/// Validates that transaction weight doesn't exceed policy limit.
pub fn validate_transaction_weight(weight: u64) -> (r: Result<(), P2wshEncodeError>)
    ensures
        r == if weight > MAX_STANDARD_TX_WEIGHT {
            Err(P2wshEncodeError::WeightTooHigh(weight))
        } else {
            Ok::<(), P2wshEncodeError>(())
        },
{
    if weight > MAX_STANDARD_TX_WEIGHT {
        return Err(P2wshEncodeError::WeightTooHigh(weight));
    }
    Ok(())
}

/// The number of fake public keys that `len` bytes fill, 32 bytes each.
pub open spec fn spec_pubkey_count(len: nat) -> nat {
    (len + 31) / 32
}

/// The fake public key of one piece of up to 32 bytes: 0x03 when the piece's
/// first bit is set, else 0x02, then the piece, padded with zeros to 32 bytes.
pub open spec fn spec_fake_pubkey(piece: Seq<u8>) -> Seq<u8> {
    seq![if piece.len() > 0 && piece[0] >= 0x80 { 0x03u8 } else { 0x02u8 }] + piece + zeros(
        (DATA_BYTES_PER_PUBKEY - piece.len()) as nat,
    )
}

/// Where piece `j` of the data ends.
pub open spec fn spec_piece_end(j: int, len: int) -> int {
    if 32 * j + 32 <= len {
        32 * j + 32
    } else {
        len
    }
}

/// The fake public keys of `d`: one for each 32-byte piece, the last possibly shorter.
pub open spec fn spec_fake_pubkeys(d: Seq<u8>) -> Seq<Seq<u8>> {
    Seq::new(
        spec_pubkey_count(d.len()),
        |j: int| spec_fake_pubkey(d.subrange(32 * j, spec_piece_end(j, d.len() as int))),
    )
}

/// Encodes data as fake pubkeys (0x02/0x03 prefix + 32 bytes).
pub fn encode_data_as_fake_pubkeys(data: &[u8]) -> (r: Result<Vec<Vec<u8>>, P2wshEncodeError>)
    ensures
        r matches Ok(keys) && byte_seqs(keys@) == spec_fake_pubkeys(data@),
{
    let ghost expected = spec_fake_pubkeys(data@);
    let mut fake_pubkeys: Vec<Vec<u8>> = Vec::new();
    let mut offset: usize = 0;
    let ghost mut j: int = 0;
    while offset < data.len()
        invariant
            offset <= data@.len(),
            offset < data@.len() ==> offset == 32 * j,
            0 <= j,
            j <= spec_pubkey_count(data@.len()),
            offset < data@.len() ==> j < spec_pubkey_count(data@.len()),
            offset >= data@.len() ==> j == spec_pubkey_count(data@.len()),
            expected == spec_fake_pubkeys(data@),
            byte_seqs(fake_pubkeys@) == expected.take(j),
        decreases data@.len() - offset,
    {
        let end = if data.len() - offset < DATA_BYTES_PER_PUBKEY {
            data.len()
        } else {
            offset + DATA_BYTES_PER_PUBKEY
        };
        let piece = copy_range(data, offset, end);
        let mut fake_pubkey: Vec<u8> = Vec::new();
        let prefix: u8 = if piece.len() > 0 && piece[0] >= 0x80 {
            0x03
        } else {
            0x02
        };
        fake_pubkey.push(prefix);
        append_bytes(&mut fake_pubkey, piece.as_slice());
        if piece.len() < DATA_BYTES_PER_PUBKEY {
            append_zeros(&mut fake_pubkey, DATA_BYTES_PER_PUBKEY - piece.len());
        } else {
            assert(zeros(0) =~= Seq::<u8>::empty());
            assert(fake_pubkey@ =~= fake_pubkey@ + zeros(0));
        }
        assert(end == spec_piece_end(j, data@.len() as int));
        assert(end >= data@.len() ==> j + 1 == spec_pubkey_count(data@.len()));
        assert(end < data@.len() ==> j + 1 < spec_pubkey_count(data@.len()));
        assert(fake_pubkey@ =~= expected[j]);
        let ghost before = fake_pubkeys@;
        fake_pubkeys.push(fake_pubkey);
        assert(byte_seqs(fake_pubkeys@) =~= byte_seqs(before).push(expected[j]));
        offset = end;
        proof {
            j = j + 1;
        }
        assert(byte_seqs(fake_pubkeys@) =~= expected.take(j));
    }
    assert(expected.take(j) =~= expected);
    Ok(fake_pubkeys)
}

/// The pushes of `keys`, one after the other.
pub open spec fn spec_pushes(keys: Seq<Seq<u8>>) -> Seq<u8>
    decreases keys.len(),
{
    if keys.len() == 0 {
        Seq::empty()
    } else {
        spec_pushes(keys.drop_last()) + spec_push(keys.last())
    }
}

/// The bytes that push the number of public keys: OP_1 to OP_16 up to 16,
/// else a one-byte push of the number.
pub open spec fn spec_key_count_push(total: nat) -> Seq<u8> {
    if total <= 16 {
        seq![(0x50 + total) as u8]
    } else {
        seq![1u8, total as u8]
    }
}

/// The pushes of a prefix of the keys open the pushes of all of them.
pub proof fn lemma_pushes_prefix(keys: Seq<Seq<u8>>, j: int)
    requires
        0 <= j <= keys.len(),
    ensures
        spec_pushes(keys.take(j)).len() <= spec_pushes(keys).len(),
        spec_pushes(keys).take(spec_pushes(keys.take(j)).len() as int) == spec_pushes(keys.take(j)),
    decreases keys.len() - j,
{
    if j == keys.len() {
        assert(keys.take(j) =~= keys);
        assert(spec_pushes(keys).take(spec_pushes(keys).len() as int) =~= spec_pushes(keys));
    } else {
        lemma_pushes_prefix(keys, j + 1);
        assert(keys.take(j + 1).drop_last() =~= keys.take(j));
        let a = spec_pushes(keys.take(j));
        let b = spec_pushes(keys.take(j + 1));
        assert(b == a + spec_push(keys[j]));
        assert(spec_pushes(keys).take(a.len() as int) =~= b.take(a.len() as int));
        assert(b.take(a.len() as int) =~= a);
    }
}

/// The 1-of-N multisig witness script: OP_1, the real key, the fake keys, the
/// number of keys, OP_CHECKMULTISIG.
pub open spec fn spec_multisig_script(key: Seq<u8>, fakes: Seq<Seq<u8>>) -> Seq<u8> {
    seq![OP_PUSHNUM_1] + spec_push(key) + spec_pushes(fakes) + spec_key_count_push(1 + fakes.len())
        + seq![OP_CHECKMULTISIG]
}

/// What building the witness script gives: an error for more than 20 keys or
/// for a fake key too long to push, else the script.
pub open spec fn spec_build_script(key: Seq<u8>, fakes: Seq<Seq<u8>>) -> Result<Seq<u8>, P2wshEncodeError> {
    if 1 + fakes.len() > MAX_PUBKEYS_PER_MULTISIG {
        Err(P2wshEncodeError::TooManyPubkeys((1 + fakes.len()) as usize))
    } else if exists|i: int| 0 <= i < fakes.len() && (#[trigger] fakes[i]).len() >= 0x1_0000_0000 {
        Err(P2wshEncodeError::PushTooLarge)
    } else {
        Ok(spec_multisig_script(key, fakes))
    }
}

/// The view of a script result.
pub open spec fn script_result_view(r: Result<Vec<u8>, P2wshEncodeError>) -> Result<Seq<u8>, P2wshEncodeError> {
    match r {
        Ok(v) => Ok(v@),
        Err(e) => Err(e),
    }
}

/// Builds a 1-of-N multisig witnessScript from the bytes of the real public
/// key and the fake public keys.
pub fn build_multisig_witnessscript(real_pubkey: &[u8], fake_pubkeys: &[Vec<u8>]) -> (r: Result<
    Vec<u8>,
    P2wshEncodeError,
>)
    requires
        real_pubkey@.len() < 0x1_0000_0000,
        fake_pubkeys@.len() < usize::MAX,
    ensures
        script_result_view(r) == spec_build_script(real_pubkey@, byte_seqs(fake_pubkeys@)),
{
    let ghost fakes = byte_seqs(fake_pubkeys@);
    let total_pubkeys = 1 + fake_pubkeys.len();
    if total_pubkeys > MAX_PUBKEYS_PER_MULTISIG {
        return Err(P2wshEncodeError::TooManyPubkeys(total_pubkeys));
    }
    let mut script: Vec<u8> = Vec::new();
    script = script_push_opcode(script, OP_PUSHNUM_1);
    script = script_push_slice(script, real_pubkey);
    let ghost head = script@;
    let mut i: usize = 0;
    assert(fakes.take(0) =~= Seq::<Seq<u8>>::empty());
    while i < fake_pubkeys.len()
        invariant
            i <= fake_pubkeys@.len(),
            fakes == byte_seqs(fake_pubkeys@),
            1 + fakes.len() <= MAX_PUBKEYS_PER_MULTISIG,
            head == seq![OP_PUSHNUM_1] + spec_push(real_pubkey@),
            script@ == head + spec_pushes(fakes.take(i as int)),
            forall|k: int| 0 <= k < i ==> (#[trigger] fakes[k]).len() < 0x1_0000_0000,
        decreases fake_pubkeys@.len() - i,
    {
        let fake = fake_pubkeys[i].as_slice();
        assert(fakes[i as int] == fake@);
        if fake.len() as u64 >= 0x1_0000_0000u64 {
            assert(fakes[i as int].len() >= 0x1_0000_0000);
            return Err(P2wshEncodeError::PushTooLarge);
        }
        script = script_push_slice(script, fake);
        assert(fakes.take(i + 1).drop_last() =~= fakes.take(i as int));
        i = i + 1;
        assert(script@ =~= head + spec_pushes(fakes.take(i as int)));
    }
    assert(fakes.take(i as int) =~= fakes);
    if total_pubkeys <= 16 {
        script = script_push_opcode(script, (0x50 + total_pubkeys) as u8);
    } else {
        script = script_push_int(script, total_pubkeys as u8);
    }
    script = script_push_opcode(script, OP_CHECKMULTISIG);
    assert(script@ =~= spec_multisig_script(real_pubkey@, fakes));
    Ok(script)
}

/// The witness stack that spends a 1-of-N multisig P2WSH output: the empty
/// element that CHECKMULTISIG pops besides the signatures, the signature,
/// and the witness script.
pub open spec fn spec_spending_witness(signature: Seq<u8>, witness_script: Seq<u8>) -> Seq<Seq<u8>> {
    seq![Seq::empty(), signature, witness_script]
}

/// Builds the witness stack of a P2WSH multisig spend from the signature
/// (with its sighash byte) and the witness script.
pub fn spending_witness(signature: &[u8], witness_script: &[u8]) -> (r: Vec<Vec<u8>>)
    ensures
        byte_seqs(r@) == spec_spending_witness(signature@, witness_script@),
{
    let mut witness: Vec<Vec<u8>> = Vec::new();
    witness.push(Vec::new());
    witness.push(copy_range(signature, 0, signature.len()));
    witness.push(copy_range(witness_script, 0, witness_script.len()));
    assert(signature@.subrange(0, signature@.len() as int) =~= signature@);
    assert(witness_script@.subrange(0, witness_script@.len() as int) =~= witness_script@);
    assert(byte_seqs(witness@) =~= spec_spending_witness(signature@, witness_script@));
    witness
}

/// The witness script of each input: the chunk of the input, as fake public
/// keys, behind the real public key.
pub open spec fn spec_witness_scripts(d: Seq<u8>, key: Seq<u8>) -> Seq<Seq<u8>> {
    spec_split(d).map_values(|c: Seq<u8>| spec_multisig_script(key, spec_fake_pubkeys(c)))
}

/// Every input chunk is at most 608 bytes long.
pub proof fn lemma_split_chunk_len(d: Seq<u8>, j: int)
    requires
        0 <= j < spec_split(d).len(),
    ensures
        spec_split(d)[j].len() <= BYTES_PER_ADDITIONAL_INPUT,
{
    if d.len() > MAX_DATA_PER_INPUT && j > 0 {
        lemma_input_bounds(d.len(), j);
    }
}

/// Builds the witness script of every input for `data`, with the real public
/// key given by its bytes.
pub fn build_witness_scripts(data: &[u8], real_pubkey: &[u8]) -> (r: Result<Vec<Vec<u8>>, P2wshEncodeError>)
    requires
        real_pubkey@.len() < 0x1_0000_0000,
    ensures
        r matches Ok(scripts) && byte_seqs(scripts@) == spec_witness_scripts(data@, real_pubkey@),
{
    let chunks = split_data_for_inputs(data);
    let ghost expected = spec_witness_scripts(data@, real_pubkey@);
    let mut scripts: Vec<Vec<u8>> = Vec::new();
    let mut j: usize = 0;
    while j < chunks.len()
        invariant
            j <= chunks@.len(),
            byte_seqs(chunks@) == spec_split(data@),
            real_pubkey@.len() < 0x1_0000_0000,
            expected == spec_witness_scripts(data@, real_pubkey@),
            byte_seqs(scripts@) == expected.take(j as int),
        decreases chunks@.len() - j,
    {
        let chunk = chunks[j].as_slice();
        assert(spec_split(data@)[j as int] == chunk@);
        proof {
            lemma_split_chunk_len(data@, j as int);
        }
        let fake_pubkeys = match encode_data_as_fake_pubkeys(chunk) {
            Ok(keys) => keys,
            Err(e) => return Err(e),
        };
        let ghost fakes = spec_fake_pubkeys(chunk@);
        assert(fakes.len() <= 19);
        assert forall|i: int| 0 <= i < fakes.len() implies (#[trigger] fakes[i]).len() < 0x1_0000_0000 by {
            assert(fakes[i].len() == 33);
        }
        let script = match build_multisig_witnessscript(real_pubkey, fake_pubkeys.as_slice()) {
            Ok(s) => s,
            Err(e) => return Err(e),
        };
        let ghost before = scripts@;
        scripts.push(script);
        assert(byte_seqs(scripts@) =~= byte_seqs(before).push(expected[j as int]));
        j = j + 1;
        assert(byte_seqs(scripts@) =~= expected.take(j as int));
    }
    assert(expected.take(j as int) =~= expected);
    Ok(scripts)
}

/// The amount that the wallet must provide before the actual fees are known:
/// the dust amount for each P2WSH output, and 100 virtual bytes at the fee rate.
pub fn funding_target(num_outputs: usize, fee_rate: u64) -> (r: u64)
    requires
        DUST_THRESHOLD * num_outputs + fee_rate * 100 <= u64::MAX,
    ensures
        r == DUST_THRESHOLD * num_outputs + fee_rate * 100,
{
    let total_funding = DUST_THRESHOLD * (num_outputs as u64);
    let estimated_fee = fee_rate * 100;
    total_funding + estimated_fee
}

/// The outputs of the funding transaction: the amount of each P2WSH output,
/// and the change.
#[derive(Debug)]
pub struct FundingPlan {
    pub output_amounts: Vec<u64>,
    pub change: u64,
}

/// The satoshis that the funding transaction pays out and in fees.
pub open spec fn spec_funding_total(num_outputs: nat, spending_fee: nat, funding_fee: nat) -> nat {
    (DUST_THRESHOLD * num_outputs + spending_fee + funding_fee) as nat
}

/// Plans the outputs of the funding transaction: each P2WSH output holds the
/// dust amount, the first also the fee of the spending transaction; the change
/// is what remains of `total_input` after the funding fee.
pub fn plan_funding(num_outputs: usize, spending_fee: u64, funding_fee: u64, total_input: u64) -> (r:
    Result<FundingPlan, P2wshEncodeError>)
    requires
        num_outputs >= 1,
        spec_funding_total(num_outputs as nat, spending_fee as nat, funding_fee as nat) <= u64::MAX,
    ensures
        ({
            let total = spec_funding_total(num_outputs as nat, spending_fee as nat, funding_fee as nat);
            if total_input < total {
                r == Err::<FundingPlan, P2wshEncodeError>(
                    P2wshEncodeError::InsufficientFunds { required: total as u64, available: total_input },
                )
            } else {
                &&& r matches Ok(plan)
                &&& plan.change == total_input - total
                &&& plan.output_amounts@.len() == num_outputs
                &&& plan.output_amounts@[0] == DUST_THRESHOLD + spending_fee
                &&& forall|i: int| 1 <= i < num_outputs ==> #[trigger] plan.output_amounts@[i] == DUST_THRESHOLD
            }
        }),
{
    let mut output_amounts: Vec<u64> = Vec::new();
    let mut i: usize = 0;
    while i < num_outputs
        invariant
            i <= num_outputs,
            output_amounts@.len() == i,
            forall|k: int| 0 <= k < i ==> #[trigger] output_amounts@[k] == DUST_THRESHOLD,
        decreases num_outputs - i,
    {
        output_amounts.push(DUST_THRESHOLD);
        i = i + 1;
    }
    let total_funding = DUST_THRESHOLD * (num_outputs as u64) + spending_fee;
    output_amounts.set(0, DUST_THRESHOLD + spending_fee);
    let total_out = total_funding + funding_fee;
    if total_input < total_out {
        return Err(P2wshEncodeError::InsufficientFunds { required: total_out, available: total_input });
    }
    Ok(FundingPlan { output_amounts, change: total_input - total_out })
}

/// The sum of a sequence of amounts.
pub open spec fn spec_sum(s: Seq<u64>) -> nat
    decreases s.len(),
{
    if s.len() == 0 {
        0
    } else {
        spec_sum(s.drop_last()) + s.last() as nat
    }
}

/// The change of the spending transaction: the P2WSH outputs it spends, less the fee.
pub fn spending_change(output_amounts: &[u64], fee: u64) -> (r: Result<u64, P2wshEncodeError>)
    requires
        spec_sum(output_amounts@) <= u64::MAX,
    ensures
        r == if spec_sum(output_amounts@) < fee {
            Err(
                P2wshEncodeError::InsufficientFunds {
                    required: fee,
                    available: spec_sum(output_amounts@) as u64,
                },
            )
        } else {
            Ok::<u64, P2wshEncodeError>((spec_sum(output_amounts@) - fee) as u64)
        },
{
    let mut total: u64 = 0;
    let mut i: usize = 0;
    while i < output_amounts.len()
        invariant
            i <= output_amounts@.len(),
            total == spec_sum(output_amounts@.take(i as int)),
            spec_sum(output_amounts@) <= u64::MAX,
        decreases output_amounts@.len() - i,
    {
        proof {
            lemma_sum_prefix_le(output_amounts@, i as int + 1);
        }
        assert(output_amounts@.take(i + 1).drop_last() =~= output_amounts@.take(i as int));
        total = total + output_amounts[i];
        i = i + 1;
    }
    assert(output_amounts@.take(i as int) =~= output_amounts@);
    if total < fee {
        return Err(P2wshEncodeError::InsufficientFunds { required: fee, available: total });
    }
    Ok(total - fee)
}

/// The sum of a prefix is at most the sum of the whole.
pub proof fn lemma_sum_prefix_le(s: Seq<u64>, k: int)
    requires
        0 <= k <= s.len(),
    ensures
        spec_sum(s.take(k)) <= spec_sum(s),
    decreases s.len() - k,
{
    if k < s.len() {
        lemma_sum_prefix_le(s, k + 1);
        assert(s.take(k + 1).drop_last() =~= s.take(k));
    } else {
        assert(s.take(k) =~= s);
    }
}


/// The outputs of the funding transaction that the spending transaction's
/// inputs spend, by position: one for each of the `n` P2WSH outputs, in order.
pub fn spending_vouts(n: u32) -> (r: Vec<u32>)
    ensures
        r@.len() == n,
        forall|i: int| 0 <= i < n ==> #[trigger] r@[i] == i,
{
    let mut vouts: Vec<u32> = Vec::new();
    let mut i: u32 = 0;
    while i < n
        invariant
            i <= n,
            vouts@.len() == i,
            forall|j: int| 0 <= j < i ==> #[trigger] vouts@[j] == j,
        decreases n - i,
    {
        vouts.push(i);
        i = i + 1;
    }
    vouts
}

} // verus!
