//! What the P2WSH witness-script encoding and the decoder promise of each other.
use vstd::prelude::*;
use crate::script::{spec_push, OP_CHECKMULTISIG, OP_PUSHNUM_1};
use crate::utils::bytes::zeros;
use crate::techniques::p2wsh_fake_multisig::encode::{
    spec_fake_pubkeys, spec_fake_pubkey, spec_pubkey_count, spec_piece_end, spec_pushes,
    spec_multisig_script, spec_key_count_push, lemma_pushes_prefix, spec_spending_witness,
};
use super::p2wsh_multisig::spec_witness_script_for;
use super::image_encoder::{spec_image_chunk_scripts, spec_image_chunks, spec_image_chunk_count, spec_encode_image_chunk};
use super::image_decoder::{spec_walk_image_from, spec_decode_image_chunks, spec_extract_image_chunk, spec_image_tag};
use crate::script::OP_RETURN;
use crate::techniques::chained_op_return::encode::ChunkView;
use crate::techniques::chained_op_return::decode::{
    ChainDecodeError, spec_concat_data, spec_first_op_return, spec_op_return_data,
    spec_has_continuation_output,
};
use crate::techniques::chained_op_return::laws::{
    law_op_return_roundtrip, lemma_all_valid, lemma_sort_in_order,
};
use super::p2wsh_decoder::{
    P2wshDecodeError, spec_read_pushes, spec_count_push_at, spec_extract_fake_pubkeys, spec_first_bad_key,
    spec_key_bodies, spec_strip_zeros, spec_decode_fake_pubkeys, spec_decode_p2wsh,
};

verus! {

/// Well-formed fake keys pass every check.
pub(crate) proof fn lemma_fake_keys_valid(d: Seq<u8>, i: int)
    requires
        0 <= i <= spec_pubkey_count(d.len()),
    ensures
        spec_first_bad_key(spec_fake_pubkeys(d), i) is None,
    decreases spec_pubkey_count(d.len()) - i,
{
    let keys = spec_fake_pubkeys(d);
    if i < keys.len() {
        let piece = d.subrange(32 * i, spec_piece_end(i, d.len() as int));
        assert(keys[i] == spec_fake_pubkey(piece));
        assert(keys[i].len() == 33);
        lemma_fake_keys_valid(d, i + 1);
    }
}

/// The data bytes of the first `j` fake keys are the data up to `32 * j`,
/// padded with zeros where the data ends.
pub(crate) proof fn lemma_key_bodies_prefix(d: Seq<u8>, j: int)
    requires
        0 <= j <= spec_pubkey_count(d.len()),
    ensures
        32 * j <= d.len() ==> spec_key_bodies(spec_fake_pubkeys(d).take(j)) == d.take(32 * j),
        32 * j > d.len() ==> spec_key_bodies(spec_fake_pubkeys(d).take(j)) == d + zeros(
            (32 * j - d.len()) as nat,
        ),
    decreases j,
{
    let keys = spec_fake_pubkeys(d);
    if j == 0 {
        assert(keys.take(0) =~= Seq::<Seq<u8>>::empty());
        assert(d.take(0) =~= Seq::<u8>::empty());
    } else {
        lemma_key_bodies_prefix(d, j - 1);
        assert(keys.take(j).drop_last() =~= keys.take(j - 1));
        assert(spec_key_bodies(keys.take(j)) == spec_key_bodies(keys.take(j - 1)) + keys[j - 1].subrange(1, 33));
        let end = spec_piece_end(j - 1, d.len() as int);
        let piece = d.subrange(32 * (j - 1), end);
        assert(keys[j - 1] == spec_fake_pubkey(piece));
        assert(keys[j - 1].subrange(1, 33) =~= piece + zeros((32 - piece.len()) as nat));
        if 32 * j <= d.len() {
            assert(d.take(32 * (j - 1)) + piece =~= d.take(32 * j));
        } else {
            assert(d.take(32 * (j - 1)) + piece + zeros((32 - piece.len()) as nat) =~= d + zeros(
                (32 * j - d.len()) as nat,
            ));
        }
    }
}

/// Trailing zeros after a last byte that is not zero are all dropped.
pub(crate) proof fn lemma_strip_padding(d: Seq<u8>, m: nat)
    requires
        d.len() > 0,
        d.last() != 0,
    ensures
        spec_strip_zeros(d + zeros(m)) == d,
    decreases m,
{
    if m == 0 {
        assert(d + zeros(0) =~= d);
    } else {
        assert((d + zeros(m)).drop_last() =~= d + zeros((m - 1) as nat));
        lemma_strip_padding(d, (m - 1) as nat);
    }
}

/// Fake public keys decode back to the data, when the data is empty or does
/// not end with a zero byte.
pub proof fn law_fake_pubkeys_roundtrip(d: Seq<u8>)
    requires
        d.len() == 0 || d.last() != 0,
    ensures
        spec_decode_fake_pubkeys(spec_fake_pubkeys(d)) == Ok::<Seq<u8>, P2wshDecodeError>(d),
{
    let n = spec_pubkey_count(d.len());
    let keys = spec_fake_pubkeys(d);
    lemma_fake_keys_valid(d, 0);
    lemma_key_bodies_prefix(d, n as int);
    assert(keys.take(n as int) =~= keys);
    assert(spec_decode_fake_pubkeys(keys) == Ok::<Seq<u8>, P2wshDecodeError>(
        spec_strip_zeros(spec_key_bodies(keys)),
    ));
    if d.len() == 0 {
        assert(n == 0);
        assert(d.take(0) =~= d);
        assert(spec_key_bodies(keys) == d);
    } else if 32 * n <= d.len() {
        assert(32 * n == d.len());
        assert(d.take(32 * n as int) =~= d);
        assert(spec_key_bodies(keys) == d);
        assert(d + zeros(0) =~= d);
        lemma_strip_padding(d, 0);
    } else {
        lemma_strip_padding(d, (32 * n - d.len()) as nat);
    }
}

/// The pushes of a key in front of others are its push in front of theirs.
proof fn lemma_pushes_cons(k: Seq<u8>, keys: Seq<Seq<u8>>)
    ensures
        spec_pushes(seq![k] + keys) == spec_push(k) + spec_pushes(keys),
    decreases keys.len(),
{
    if keys.len() == 0 {
        assert(seq![k] + keys =~= seq![k]);
        assert(seq![k].drop_last() =~= Seq::<Seq<u8>>::empty());
        assert(spec_pushes(seq![k]) == spec_pushes(seq![k].drop_last()) + spec_push(k));
        assert(spec_pushes(seq![k]) =~= spec_push(k) + spec_pushes(keys));
    } else {
        lemma_pushes_cons(k, keys.drop_last());
        assert((seq![k] + keys).drop_last() =~= seq![k] + keys.drop_last());
        assert(spec_push(k) + spec_pushes(keys.drop_last()) + spec_push(keys.last()) =~= spec_push(k)
            + spec_pushes(keys));
    }
}

/// Reading the pushes of keys of 2 to 75 bytes, written at `p0` in `s`, gives those keys.
proof fn lemma_read_pushes(s: Seq<u8>, p0: int, keys: Seq<Seq<u8>>, acc: Seq<Seq<u8>>, j: int)
    requires
        0 <= p0,
        0 <= j <= keys.len(),
        p0 + spec_pushes(keys).len() <= s.len(),
        s.subrange(p0, p0 + spec_pushes(keys).len()) == spec_pushes(keys),
        forall|i: int| 0 <= i < keys.len() ==> 2 <= (#[trigger] keys[i]).len() <= 75,
    ensures
        spec_read_pushes(s, p0, acc) == spec_read_pushes(
            s,
            p0 + spec_pushes(keys.take(j)).len(),
            acc + keys.take(j),
        ),
    decreases j,
{
    if j == 0 {
        assert(keys.take(0) =~= Seq::<Seq<u8>>::empty());
        assert(acc + keys.take(0) =~= acc);
    } else {
        lemma_read_pushes(s, p0, keys, acc, j - 1);
        lemma_pushes_prefix(keys, j);
        let p = p0 + spec_pushes(keys.take(j - 1)).len();
        let k = keys[j - 1];
        assert(keys.take(j).drop_last() =~= keys.take(j - 1));
        assert(spec_pushes(keys.take(j)) == spec_pushes(keys.take(j - 1)) + spec_push(k));
        assert(spec_push(k)[0] == k.len());
        assert(s[p] == spec_pushes(keys)[p - p0]);
        assert(spec_pushes(keys)[p - p0] == spec_pushes(keys.take(j))[p - p0]);
        assert(s[p] == k.len());
        assert(s.subrange(p + 1, p + 1 + k.len()) =~= k) by {
            assert forall|i: int| 0 <= i < k.len() implies s.subrange(p + 1, p + 1 + k.len())[i] == k[i] by {
                assert(s[p + 1 + i] == spec_pushes(keys)[p + 1 + i - p0]);
                assert(spec_pushes(keys)[p + 1 + i - p0] == spec_pushes(keys.take(j))[p + 1 + i - p0]);
            }
        }
        assert(spec_push(k).len() == 1 + k.len());
        assert(p + 1 + k.len() <= s.len());
        assert(spec_read_pushes(s, p, acc + keys.take(j - 1)) == spec_read_pushes(
            s,
            p + 1 + k.len(),
            (acc + keys.take(j - 1)).push(s.subrange(p + 1, p + 1 + k.len())),
        ));
        assert(acc + keys.take(j - 1) + seq![k] =~= acc + keys.take(j));
        assert((acc + keys.take(j - 1)).push(k) =~= acc + keys.take(j));
    }
}

/// A multisig witness script with keys of 2 to 75 bytes and at most 19 fake
/// keys gives its fake keys back to `extract_fake_pubkeys_from_script`.
pub proof fn law_witness_script_roundtrip(key: Seq<u8>, fakes: Seq<Seq<u8>>)
    requires
        2 <= key.len() <= 75,
        fakes.len() <= 19,
        forall|i: int| 0 <= i < fakes.len() ==> 2 <= (#[trigger] fakes[i]).len() <= 75,
    ensures
        spec_extract_fake_pubkeys(spec_multisig_script(key, fakes)) == Ok::<Seq<Seq<u8>>, P2wshDecodeError>(
            fakes,
        ),
{
    let all = seq![key] + fakes;
    let s = spec_multisig_script(key, fakes);
    let total = 1 + fakes.len();
    lemma_pushes_cons(key, fakes);
    let body = spec_pushes(all);
    assert(s =~= seq![OP_PUSHNUM_1] + body + spec_key_count_push(total) + seq![OP_CHECKMULTISIG]);
    assert(s.subrange(1, 1 + body.len() as int) =~= body);
    assert forall|i: int| 0 <= i < all.len() implies 2 <= (#[trigger] all[i]).len() <= 75 by {
        if i > 0 {
            assert(all[i] == fakes[i - 1]);
        }
    }
    lemma_read_pushes(s, 1, all, Seq::empty(), all.len() as int);
    assert(all.take(all.len() as int) =~= all);
    assert(Seq::<Seq<u8>>::empty() + all =~= all);
    let p: int = 1 + body.len() as int;
    if total <= 16 {
        assert(s[p] == 0x50 + total);
        assert(spec_read_pushes(s, p, all) == Ok::<Seq<Seq<u8>>, P2wshDecodeError>(all));
        assert(all.drop_first() =~= fakes);
    } else {
        assert(s[p] == 1);
        assert(s[p + 1] == total);
        assert(s[p + 2] == OP_CHECKMULTISIG);
        assert(spec_count_push_at(s, p));
        assert(spec_read_pushes(s, p, all) == Ok::<Seq<Seq<u8>>, P2wshDecodeError>(all));
        assert(all.drop_first() =~= fakes);
    }
}

/// Data of at most 608 bytes (19 fake keys) that does not end with a zero byte
/// comes back from the witness of a P2WSH spend whose witness script carries
/// it behind a 33-byte key.
pub proof fn law_p2wsh_witness_roundtrip(d: Seq<u8>, key: Seq<u8>, witness: Seq<Seq<u8>>)
    requires
        d.len() <= 608,
        d.len() == 0 || d.last() != 0,
        key.len() == 33,
        witness.len() >= 3,
        witness.last() == spec_multisig_script(key, spec_fake_pubkeys(d)),
    ensures
        spec_decode_p2wsh(seq![witness]) == Ok::<Seq<u8>, P2wshDecodeError>(d),
{
    let fakes = spec_fake_pubkeys(d);
    assert(fakes.len() <= 19);
    assert forall|i: int| 0 <= i < fakes.len() implies 2 <= (#[trigger] fakes[i]).len() <= 75 by {
        assert(fakes[i].len() == 33);
    }
    law_witness_script_roundtrip(key, fakes);
    law_fake_pubkeys_roundtrip(d);
    assert(seq![witness][0] == witness);
}

/// The transaction creator's P2WSH spend gives its data back: for data of at
/// most 608 bytes that does not end with a zero byte, the witness script built
/// for it behind a 33-byte key, spent with any signature, decodes to the data.
pub proof fn law_spend_reveals_data(d: Seq<u8>, key: Seq<u8>, signature: Seq<u8>)
    requires
        d.len() <= 608,
        d.len() == 0 || d.last() != 0,
        key.len() == 33,
    ensures
        match spec_witness_script_for(d, key) {
            Ok(script) => spec_decode_p2wsh(seq![spec_spending_witness(signature, script)])
                == Ok::<Seq<u8>, P2wshDecodeError>(d),
            Err(_) => false,
        },
{
    let script = spec_multisig_script(key, spec_fake_pubkeys(d));
    let witness = spec_spending_witness(signature, script);
    assert(witness.last() == script);
    law_p2wsh_witness_roundtrip(d, key, witness);
}


/// The first `k` image chunks of a file hold the file up to `75 * k`, or the
/// whole file.
proof fn lemma_image_concat(d: Seq<u8>, k: int)
    requires
        0 <= k <= spec_image_chunk_count(d.len()),
    ensures
        spec_concat_data(spec_image_chunks(d).take(k)) == d.take(if 75 * k <= d.len() { 75 * k } else { d.len() as int }),
    decreases k,
{
    let cs = spec_image_chunks(d);
    let n = spec_image_chunk_count(d.len());
    if k == 0 {
        assert(cs.take(0) =~= Seq::<ChunkView>::empty());
        assert(d.take(0) =~= Seq::<u8>::empty());
    } else {
        lemma_image_concat(d, k - 1);
        assert(75 * (k - 1) < d.len()) by (nonlinear_arith)
            requires
                n == (d.len() + 74) / 75,
                k <= n,
        ;
        assert(cs.take(k).drop_last() =~= cs.take(k - 1));
        assert(cs.take(k).last() == cs[k - 1]);
        let end = if 75 * k <= d.len() { 75 * k } else { d.len() as int };
        assert(d.take(75 * (k - 1)) + d.subrange(75 * (k - 1), end) =~= d.take(end));
    }
}

/// The image chunks of a file that needs at most 255 of them join back into the file.
pub proof fn law_image_chunks_decode_to_file(d: Seq<u8>)
    requires
        d.len() > 0,
        spec_image_chunk_count(d.len()) <= 255,
    ensures
        spec_decode_image_chunks(spec_image_chunks(d)) == Ok::<Seq<u8>, ChainDecodeError>(d),
{
    let cs = spec_image_chunks(d);
    let n = spec_image_chunk_count(d.len());
    assert(n >= 1 && n <= 255) by (nonlinear_arith)
        requires
            n == (d.len() + 74) / 75,
            d.len() > 0,
            n <= 255,
    ;
    assert forall|i: int, j: int| 0 <= i < j < cs.len() implies cs[i].index <= cs[j].index by {
        assert(cs[i].index == i && cs[j].index == j);
    }
    lemma_sort_in_order(cs);
    lemma_all_valid(cs, n as u8, 0);
    lemma_image_concat(d, n as int);
    assert(75 * n >= d.len()) by (nonlinear_arith)
        requires
            n == (d.len() + 74) / 75,
    ;
    assert(cs.take(n as int) =~= cs);
    assert(d.take(d.len() as int) =~= d);
    assert(cs[0].total_chunks == n);
}

/// An image chunk, written into the first OP_RETURN output of a transaction,
/// is extracted back from that transaction.
pub proof fn law_extract_encoded_image_chunk(c: ChunkView, scripts: Seq<Seq<u8>>)
    requires
        c.file_size is None,
        c.data.len() < 0x1_0000_0000 - 5,
        spec_first_op_return(scripts) == Some(
            seq![OP_RETURN] + spec_push(spec_encode_image_chunk(c.index, c.total_chunks, c.data)),
        ),
    ensures
        spec_extract_image_chunk(scripts) == Ok::<ChunkView, ChainDecodeError>(c),
{
    let e = spec_encode_image_chunk(c.index, c.total_chunks, c.data);
    assert(e.len() == 5 + c.data.len());
    law_op_return_roundtrip(e);
    assert(spec_first_op_return(scripts) == Some(seq![OP_RETURN] + spec_push(e)));
    assert(spec_op_return_data(seq![OP_RETURN] + spec_push(e)) == Some(e));
    assert(e.take(3) =~= spec_image_tag());
    assert(e.skip(5) =~= c.data);
}


/// Walking the encoded image chain from transaction `j` on collects the chunks from `j` on.
proof fn lemma_walk_image_suffix(d: Seq<u8>, txs: Seq<Seq<Seq<u8>>>, j: int)
    requires
        txs.len() == spec_image_chunks(d).len(),
        forall|k: int| 0 <= k < txs.len() ==> spec_first_op_return(#[trigger] txs[k]) == Some(
            spec_image_chunk_scripts(d)[k],
        ),
        forall|k: int|
            0 <= k < txs.len() - 1 ==> (#[trigger] txs[k]).len() >= 2 && !(txs[k][1].len() > 0 && txs[k][1][0]
                == OP_RETURN),
        0 <= j < txs.len(),
    ensures
        spec_walk_image_from(txs, j) == Ok::<Seq<ChunkView>, ChainDecodeError>(spec_image_chunks(d).skip(j)),
    decreases txs.len() - j,
{
    let cs = spec_image_chunks(d);
    let c = cs[j];
    assert(c.data.len() <= 75);
    assert(spec_first_op_return(txs[j]) == Some(spec_image_chunk_scripts(d)[j]));
    assert(spec_image_chunk_scripts(d)[j] == seq![OP_RETURN] + spec_push(
        spec_encode_image_chunk(c.index, c.total_chunks, c.data),
    ));
    assert(c.file_size is None);
    law_extract_encoded_image_chunk(c, txs[j]);
    assert(spec_extract_image_chunk(txs[j]) == Ok::<ChunkView, ChainDecodeError>(c));
    if j == txs.len() - 1 {
        assert(cs.skip(j) =~= seq![c]);
        assert(seq![c] + Seq::<ChunkView>::empty() =~= seq![c]);
        assert(spec_walk_image_from(txs, j + 1) == Ok::<Seq<ChunkView>, ChainDecodeError>(Seq::empty()));
        assert(spec_walk_image_from(txs, j) == Ok::<Seq<ChunkView>, ChainDecodeError>(seq![c]));
    } else {
        assert(spec_has_continuation_output(txs[j]));
        lemma_walk_image_suffix(d, txs, j + 1);
        assert(spec_walk_image_from(txs, j) == Ok::<Seq<ChunkView>, ChainDecodeError>(seq![c] + cs.skip(j + 1)));
        assert(seq![c] + cs.skip(j + 1) =~= cs.skip(j));
    }
}

/// Following an image chain whose transaction `k` has the `k`-th script that
/// `image_chunk_scripts` writes for a file as its first OP_RETURN output, and,
/// when another transaction follows, a second output that is no OP_RETURN
/// (the continuation, whatever outputs come after it), collects the chunks
/// of the file; for a file of at most 255 chunks they join back into the file.
pub proof fn law_walk_encoded_image_chain(d: Seq<u8>, txs: Seq<Seq<Seq<u8>>>)
    requires
        d.len() > 0,
        spec_image_chunk_count(d.len()) <= 255,
        txs.len() == spec_image_chunks(d).len(),
        forall|k: int| 0 <= k < txs.len() ==> spec_first_op_return(#[trigger] txs[k]) == Some(
            spec_image_chunk_scripts(d)[k],
        ),
        forall|k: int|
            0 <= k < txs.len() - 1 ==> (#[trigger] txs[k]).len() >= 2 && !(txs[k][1].len() > 0 && txs[k][1][0]
                == OP_RETURN),
    ensures
        spec_walk_image_from(txs, 0) == Ok::<Seq<ChunkView>, ChainDecodeError>(spec_image_chunks(d)),
        spec_decode_image_chunks(spec_image_chunks(d)) == Ok::<Seq<u8>, ChainDecodeError>(d),
{
    assert(spec_image_chunk_count(d.len()) >= 1) by (nonlinear_arith)
        requires
            d.len() > 0,
    ;
    lemma_walk_image_suffix(d, txs, 0);
    assert(spec_image_chunks(d).skip(0) =~= spec_image_chunks(d));
    law_image_chunks_decode_to_file(d);
}

} // verus!
