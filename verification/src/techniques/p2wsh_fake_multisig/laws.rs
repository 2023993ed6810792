//! What the P2WSH input split promises.
use vstd::prelude::*;
use crate::techniques::spec_ordiknot_prefix;
use crate::script::{spec_push, OP_CHECKMULTISIG, OP_PUSHNUM_1};
use super::detect::spec_detect;
use super::decode::{spec_input_bodies, spec_all_bodies, spec_decode_witnesses};
use crate::utils::bytes::zeros;
use crate::tx_creator::p2wsh_decoder::P2wshDecodeError;
use crate::tx_creator::laws::{
    law_witness_script_roundtrip, lemma_fake_keys_valid, lemma_key_bodies_prefix, lemma_strip_padding,
};
use super::encode::{
    spec_split, spec_inputs_needed, spec_input_start, lemma_input_bounds, lemma_split_chunk_len,
    spec_fake_pubkeys, spec_fake_pubkey, spec_piece_end, spec_pushes, spec_multisig_script,
    spec_witness_scripts, lemma_pushes_prefix, spec_pubkey_count, MAX_DATA_PER_INPUT,
    MAX_PUBKEYS_PER_MULTISIG, BYTES_PER_ADDITIONAL_INPUT,
};

verus! {

/// Byte sequences, one after the other.
pub open spec fn spec_flatten(s: Seq<Seq<u8>>) -> Seq<u8>
    decreases s.len(),
{
    if s.len() == 0 {
        Seq::empty()
    } else {
        spec_flatten(s.drop_last()) + s.last()
    }
}

/// The first `j` input chunks hold the prefix and the data up to where input `j` starts.
proof fn lemma_split_prefix(d: Seq<u8>, j: int)
    requires
        d.len() > MAX_DATA_PER_INPUT,
        1 <= j < spec_inputs_needed(d.len()),
    ensures
        spec_flatten(spec_split(d).take(j)) == spec_ordiknot_prefix() + d.take(spec_input_start(j)),
    decreases j,
{
    let s = spec_split(d);
    if j == 1 {
        assert(s.take(1).drop_last() =~= Seq::<Seq<u8>>::empty());
        assert(spec_flatten(s.take(1)) == spec_flatten(s.take(1).drop_last()) + s[0]);
        assert(spec_flatten(s.take(1)) =~= s[0]);
    } else {
        lemma_split_prefix(d, j - 1);
        lemma_input_bounds(d.len(), j - 1);
        assert(s.take(j).drop_last() =~= s.take(j - 1));
        assert(spec_flatten(s.take(j)) == spec_flatten(s.take(j - 1)) + s[j - 1]);
        assert(d.take(spec_input_start(j - 1)) + d.subrange(spec_input_start(j - 1), spec_input_start(j))
            =~= d.take(spec_input_start(j)));
    }
}

/// The input chunks number as many as `calculate_inputs_needed` says, and
/// together they are the prefix followed by the data.
pub proof fn law_split_covers_data(d: Seq<u8>)
    ensures
        spec_split(d).len() == spec_inputs_needed(d.len()),
        spec_flatten(spec_split(d)) == spec_ordiknot_prefix() + d,
{
    let s = spec_split(d);
    if d.len() <= MAX_DATA_PER_INPUT {
        assert(s.drop_last() =~= Seq::<Seq<u8>>::empty());
        assert(spec_flatten(s) == spec_flatten(s.drop_last()) + s.last());
        assert(spec_flatten(s) =~= spec_ordiknot_prefix() + d);
    } else {
        let n = spec_inputs_needed(d.len());
        lemma_split_prefix(d, n - 1);
        lemma_input_bounds(d.len(), n - 1);
        assert(s.drop_last() =~= s.take(n - 1));
        assert(spec_flatten(s) == spec_flatten(s.drop_last()) + s.last());
        assert(spec_flatten(s) =~= spec_ordiknot_prefix() + d);
    }
}

/// Each input chunk fills at most 19 fake public keys, so that with the real
/// key every witness script stays within the 20 keys of CHECKMULTISIG.
pub proof fn law_inputs_fit_multisig(d: Seq<u8>)
    ensures
        forall|j: int|
            0 <= j < spec_split(d).len() ==> spec_fake_pubkeys(#[trigger] spec_split(d)[j]).len() + 1
                <= MAX_PUBKEYS_PER_MULTISIG,
{
    assert forall|j: int| 0 <= j < spec_split(d).len() implies spec_fake_pubkeys(
        #[trigger] spec_split(d)[j],
    ).len() + 1 <= MAX_PUBKEYS_PER_MULTISIG by {
        lemma_split_chunk_len(d, j);
    }
}

/// The witness script of the first input holds the "444" marker, so the
/// detector recognizes a spend that reveals it.
pub proof fn law_detects_encoded_script(d: Seq<u8>, key: Seq<u8>, witness: Seq<Seq<u8>>)
    requires
        key.len() == 33,
        witness.len() >= 3,
        witness.last() == spec_witness_scripts(d, key)[0],
    ensures
        spec_detect(seq![witness]),
{
    let chunk = spec_split(d)[0];
    assert(chunk.take(3) =~= spec_ordiknot_prefix()) by {
        if d.len() > MAX_DATA_PER_INPUT {
            assert(chunk == spec_ordiknot_prefix() + d.take(MAX_DATA_PER_INPUT as int));
        }
    }
    let fakes = spec_fake_pubkeys(chunk);
    assert(fakes.len() >= 1);
    let f0 = fakes[0];
    assert(f0 == spec_fake_pubkey(chunk.subrange(0, spec_piece_end(0, chunk.len() as int))));
    assert(f0.subrange(1, 4) =~= spec_ordiknot_prefix());
    assert(fakes.take(1).drop_last() =~= Seq::<Seq<u8>>::empty());
    lemma_pushes_prefix(fakes, 1);
    assert(fakes.take(1).last() == f0);
    assert(spec_pushes(fakes.take(1)) == spec_pushes(fakes.take(1).drop_last()) + spec_push(f0));
    let pushes = spec_pushes(fakes);
    assert(pushes.take(34) == spec_push(f0));
    let script = spec_multisig_script(key, fakes);
    assert(script.subrange(37, 40) =~= spec_ordiknot_prefix()) by {
        assert forall|i: int| 0 <= i < 3 implies script.subrange(37, 40)[i] == spec_ordiknot_prefix()[i] by {
            assert(script[37 + i] == pushes[1 + 1 + i]);
            assert(pushes[2 + i] == pushes.take(34)[2 + i]);
            assert(spec_push(f0)[2 + i] == f0[1 + i]);
            assert(f0[1 + i] == f0.subrange(1, 4)[i]);
        }
    }
    assert(spec_witness_scripts(d, key)[0] == script);
    assert(script.len() >= 40);
    let at: int = 37;
    assert(script.subrange(at, at + 3) == spec_ordiknot_prefix());
    assert(super::detect::spec_contains_marker(script));
    assert(seq![witness][0] == witness);
}


/// An input whose witness script carries the chunk `c` of at most 608 bytes
/// gives back the chunk, padded with zeros to whole keys.
proof fn lemma_input_gives_chunk(c: Seq<u8>, key: Seq<u8>, w: Seq<Seq<u8>>)
    requires
        c.len() <= BYTES_PER_ADDITIONAL_INPUT,
        key.len() == 33,
        w.len() >= 3,
        w.last() == spec_multisig_script(key, spec_fake_pubkeys(c)),
    ensures
        spec_input_bodies(w) == Ok::<Seq<u8>, P2wshDecodeError>(
            c + zeros((32 * spec_pubkey_count(c.len()) - c.len()) as nat),
        ),
{
    let fakes = spec_fake_pubkeys(c);
    let n = spec_pubkey_count(c.len());
    assert(fakes.len() <= 19);
    assert forall|i: int| 0 <= i < fakes.len() implies 2 <= (#[trigger] fakes[i]).len() <= 75 by {
        assert(fakes[i].len() == 33);
    }
    law_witness_script_roundtrip(key, fakes);
    lemma_fake_keys_valid(c, 0);
    lemma_key_bodies_prefix(c, n as int);
    assert(fakes.take(n as int) =~= fakes);
    if 32 * n <= c.len() {
        assert(c.take(32 * n as int) =~= c);
        assert(c + zeros(0) =~= c);
    }
}

/// Every input chunk but the last is a full 608 bytes.
proof fn lemma_inner_chunk_full(d: Seq<u8>, j: int)
    requires
        0 <= j < spec_split(d).len() - 1,
    ensures
        spec_split(d)[j].len() == BYTES_PER_ADDITIONAL_INPUT,
{
    if j > 0 {
        lemma_input_bounds(d.len(), j);
    }
}

/// The witnesses of the first `m` inputs, all but the last, give the first `m`
/// input chunks back.
proof fn lemma_inner_bodies(d: Seq<u8>, key: Seq<u8>, ws: Seq<Seq<Seq<u8>>>, m: int)
    requires
        key.len() == 33,
        ws.len() == spec_split(d).len(),
        forall|j: int| 0 <= j < ws.len() ==> (#[trigger] ws[j]).len() >= 3 && ws[j].last()
            == spec_witness_scripts(d, key)[j],
        0 <= m < ws.len(),
    ensures
        spec_all_bodies(ws.take(m)) == Ok::<Seq<u8>, P2wshDecodeError>(spec_flatten(spec_split(d).take(m))),
    decreases m,
{
    let s = spec_split(d);
    if m == 0 {
        assert(ws.take(0) =~= Seq::<Seq<Seq<u8>>>::empty());
        assert(s.take(0) =~= Seq::<Seq<u8>>::empty());
    } else {
        lemma_inner_bodies(d, key, ws, m - 1);
        assert(ws.take(m).drop_last() =~= ws.take(m - 1));
        assert(s.take(m).drop_last() =~= s.take(m - 1));
        let c = s[m - 1];
        lemma_inner_chunk_full(d, m - 1);
        assert(ws[m - 1].len() >= 3);
        lemma_input_gives_chunk(c, key, ws[m - 1]);
        assert(spec_pubkey_count(c.len()) == 19);
        assert(c + zeros(0) =~= c);
        assert(ws.take(m).last() == ws[m - 1]);
        assert(s.take(m).last() == c);
    }
}

/// The witnesses of all inputs give the prefixed data back, padded with zeros
/// to whole keys.
proof fn lemma_all_bodies(d: Seq<u8>, key: Seq<u8>, ws: Seq<Seq<Seq<u8>>>)
    requires
        key.len() == 33,
        ws.len() == spec_split(d).len(),
        forall|j: int| 0 <= j < ws.len() ==> (#[trigger] ws[j]).len() >= 3 && ws[j].last()
            == spec_witness_scripts(d, key)[j],
    ensures
        exists|pad: nat| spec_all_bodies(ws) == Ok::<Seq<u8>, P2wshDecodeError>(
            spec_ordiknot_prefix() + d + zeros(pad),
        ),
{
    let s = spec_split(d);
    let n = ws.len() as int;
    lemma_inner_bodies(d, key, ws, n - 1);
    assert(ws.drop_last() =~= ws.take(n - 1));
    assert(s.drop_last() =~= s.take(n - 1));
    let c = s[n - 1];
    lemma_split_chunk_len(d, n - 1);
    assert(ws[n - 1].len() >= 3);
    assert(ws[n - 1].last() == spec_witness_scripts(d, key)[n - 1]);
    lemma_input_gives_chunk(c, key, ws[n - 1]);
    let pad = (32 * spec_pubkey_count(c.len()) - c.len()) as nat;
    law_split_covers_data(d);
    assert(spec_flatten(s) == spec_flatten(s.drop_last()) + s.last());
    assert(spec_all_bodies(ws.drop_last()) == Ok::<Seq<u8>, P2wshDecodeError>(spec_flatten(s.take(n - 1))));
    assert(spec_input_bodies(ws.last()) == Ok::<Seq<u8>, P2wshDecodeError>(c + zeros(pad)));
    assert(spec_flatten(s.take(n - 1)) + (c + zeros(pad)) =~= spec_ordiknot_prefix() + d + zeros(pad));
}

/// A P2WSH spend whose every input reveals the witness script that the encoder
/// built for it gives the data back, for data that is empty or does not end
/// with a zero byte.
pub proof fn law_witnesses_decode_to_data(d: Seq<u8>, key: Seq<u8>, ws: Seq<Seq<Seq<u8>>>)
    requires
        d.len() == 0 || d.last() != 0,
        key.len() == 33,
        ws.len() == spec_split(d).len(),
        forall|j: int| 0 <= j < ws.len() ==> (#[trigger] ws[j]).len() >= 3 && ws[j].last()
            == spec_witness_scripts(d, key)[j],
    ensures
        spec_decode_witnesses(ws) == Ok::<Seq<u8>, P2wshDecodeError>(d),
{
    assert(ws.len() >= 1);
    lemma_all_bodies(d, key, ws);
    let p = spec_ordiknot_prefix() + d;
    let pad = choose|pad: nat| spec_all_bodies(ws) == Ok::<Seq<u8>, P2wshDecodeError>(p + zeros(pad));
    assert(p.last() != 0) by {
        if d.len() == 0 {
            assert(p.last() == 0x34);
        } else {
            assert(p.last() == d.last());
        }
    }
    lemma_strip_padding(p, pad);
    assert(p.take(3) =~= spec_ordiknot_prefix());
    assert(p.skip(3) =~= d);
}

/// The number of keys of a multisig witness script stands just before
/// OP_CHECKMULTISIG: up to 16 keys as the single opcode OP_1 to OP_16 (0x50 +
/// the count), with nothing else after the keys; from 17 keys on as a one-byte
/// push of the count.
pub proof fn law_key_count_before_checkmultisig(key: Seq<u8>, fakes: Seq<Seq<u8>>)
    requires
        1 + fakes.len() <= MAX_PUBKEYS_PER_MULTISIG,
    ensures
        ({
            let s = spec_multisig_script(key, fakes);
            let total = 1 + fakes.len();
            &&& s.len() >= 3
            &&& s[0] == OP_PUSHNUM_1
            &&& s.last() == OP_CHECKMULTISIG
            &&& total <= 16 ==> s == seq![OP_PUSHNUM_1] + spec_push(key) + spec_pushes(fakes) + seq![
                (0x50 + total) as u8,
                OP_CHECKMULTISIG,
            ]
            &&& total <= 16 ==> s[s.len() - 2] == 0x50 + total
            &&& total > 16 ==> s.subrange(s.len() - 3, s.len() as int) == seq![1u8, total as u8, OP_CHECKMULTISIG]
        }),
{
    let s = spec_multisig_script(key, fakes);
    let total = 1 + fakes.len();
    if total <= 16 {
        assert(s =~= seq![OP_PUSHNUM_1] + spec_push(key) + spec_pushes(fakes) + seq![
            (0x50 + total) as u8,
            OP_CHECKMULTISIG,
        ]);
    } else {
        assert(s.subrange(s.len() - 3, s.len() as int) =~= seq![1u8, total as u8, OP_CHECKMULTISIG]);
    }
}


/// Each fake public key is 33 bytes: 0x03 when its 32-byte piece of the data
/// starts with a set high bit, else 0x02, then the piece, the last padded with
/// zeros.
pub proof fn law_fake_key_layout(d: Seq<u8>)
    ensures
        spec_fake_pubkeys(d).len() * 32 >= d.len(),
        spec_fake_pubkeys(d).len() * 32 < d.len() + 32,
        forall|j: int|
            0 <= j < spec_fake_pubkeys(d).len() ==> {
                let k = #[trigger] spec_fake_pubkeys(d)[j];
                let end = if 32 * j + 32 <= d.len() { 32 * j + 32 } else { d.len() as int };
                &&& k.len() == 33
                &&& k[0] == if d[32 * j] >= 0x80 { 0x03u8 } else { 0x02u8 }
                &&& k.subrange(1, 1 + end - 32 * j) == d.subrange(32 * j, end)
                &&& forall|i: int| 1 + end - 32 * j <= i < 33 ==> k[i] == 0
            },
{
    let n = spec_pubkey_count(d.len());
    assert(n * 32 >= d.len() && n * 32 < d.len() + 32) by (nonlinear_arith)
        requires
            n == (d.len() + 31) / 32,
    ;
    assert forall|j: int| 0 <= j < spec_fake_pubkeys(d).len() implies {
        let k = #[trigger] spec_fake_pubkeys(d)[j];
        let end = if 32 * j + 32 <= d.len() { 32 * j + 32 } else { d.len() as int };
        &&& k.len() == 33
        &&& k[0] == if d[32 * j] >= 0x80 { 0x03u8 } else { 0x02u8 }
        &&& k.subrange(1, 1 + end - 32 * j) == d.subrange(32 * j, end)
        &&& forall|i: int| 1 + end - 32 * j <= i < 33 ==> k[i] == 0
    } by {
        assert(32 * j < d.len()) by (nonlinear_arith)
            requires
                j < n,
                n == (d.len() + 31) / 32,
                j >= 0,
        ;
        let end = if 32 * j + 32 <= d.len() { 32 * j + 32 } else { d.len() as int };
        let piece = d.subrange(32 * j, end);
        let k = spec_fake_pubkeys(d)[j];
        assert(k == spec_fake_pubkey(piece));
        assert(piece[0] == d[32 * j]);
        assert(k.subrange(1, 1 + end - 32 * j) =~= piece);
    }
}

} // verus!
