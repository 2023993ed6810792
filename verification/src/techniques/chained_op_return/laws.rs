//! What the chained OP_RETURN encoding and decoding promise of each other.
use vstd::prelude::*;
use crate::script::{spec_push, spec_is_op_return, OP_RETURN};
use super::detect::{spec_detect, spec_marked_op_return};
use crate::utils::transaction::TX_FEE_SATS;
use super::encode::{
    ChunkView, spec_chunk_scripts, spec_chunk_tag, spec_next_amount, spec_first_continuation, spec_encode_chunk, spec_chunks, spec_chunk_count, spec_chunk_start,
    spec_chunk_result, lemma_chunk_bounds, MAX_FILE_SIZE, MAX_OP_RETURN_SIZE, FIRST_CHUNK_MAX_DATA, MAX_DATA_PER_CHUNK,
};
use super::decode::{
    ChainDecodeError, spec_op_return_data, spec_parse_chunk, le16, le32, spec_sort_by_index,
    spec_first_invalid, spec_concat_data, spec_decode_chunks, spec_first_op_return, spec_extract_chunk,
    spec_walk_from, spec_has_continuation_output,
};

verus! {

/// An OP_RETURN script that `op_return_script` writes for any data it takes
/// gives that data back to `extract_op_return_data`.
pub proof fn law_op_return_roundtrip(d: Seq<u8>)
    requires
        d.len() < 0x1_0000_0000,
    ensures
        spec_op_return_data(seq![OP_RETURN] + spec_push(d)) == Some(d),
{
    let b = seq![OP_RETURN] + spec_push(d);
    let n = d.len();
    if n < 76 {
        assert(b[1] == n);
        assert(b.subrange(2, 2 + n as int) =~= d);
    } else if n < 0x100 {
        assert(b[1] == 0x4c && b[2] == n);
        assert(b.subrange(3, 3 + n as int) =~= d);
    } else if n < 0x10000 {
        assert(b[1] == 0x4d);
        assert(le16(b, 2) == n) by {
            assert(b[2] == (n % 0x100) as u8 && b[3] == (n / 0x100) as u8);
            assert((n % 0x100) + 256 * (n / 0x100) == n) by (nonlinear_arith);
        }
        assert(b.subrange(4, 4 + n as int) =~= d);
    } else {
        assert(b[1] == 0x4e);
        assert(le32(b, 2) == n) by {
            assert(b[2] == (n % 0x100) as u8);
            assert(b[3] == ((n / 0x100) % 0x100) as u8);
            assert(b[4] == ((n / 0x10000) % 0x100) as u8);
            assert(b[5] == (n / 0x1000000) as u8);
            let n0 = n as int;
            assert((n0 % 0x100) + 256 * ((n0 / 0x100) % 0x100) + 65536 * ((n0 / 0x10000) % 0x100)
                + 16777216 * (n0 / 0x1000000) == n0) by (nonlinear_arith)
                requires 0 <= n0 < 0x1_0000_0000;
        }
        assert(b.subrange(6, 6 + n as int) =~= d);
    }
}

/// A chunk whose file size is present exactly when it is the first reads back
/// from its encoding, when the tag that `encode` writes is the one expected.
pub proof fn law_chunk_payload_roundtrip(c: ChunkView)
    requires
        (c.index == 0) == (c.file_size is Some),
    ensures
        spec_parse_chunk(spec_encode_chunk(c), spec_chunk_tag()) == Ok::<ChunkView, ChainDecodeError>(c),
{
    let e = spec_encode_chunk(c);
    assert(e.take(3) =~= spec_chunk_tag());
    match c.file_size {
        Some(size) => {
            assert(e.skip(7) =~= c.data);
            assert(le16(e, 5) == size);
        },
        None => {
            assert(e.skip(5) =~= c.data);
        },
    }
}

/// A chunk whose file size is present exactly when it is the first, written
/// into the first OP_RETURN output of a transaction, is extracted back from that
/// transaction, and the detector recognizes the transaction.
pub proof fn law_extract_encoded_chunk(c: ChunkView, scripts: Seq<Seq<u8>>)
    requires
        (c.index == 0) == (c.file_size is Some),
        spec_encode_chunk(c).len() < 0x1_0000_0000,
        spec_first_op_return(scripts) == Some(seq![OP_RETURN] + spec_push(spec_encode_chunk(c))),
    ensures
        spec_extract_chunk(scripts) == Ok::<ChunkView, ChainDecodeError>(c),
        spec_detect(scripts),
{
    let e = spec_encode_chunk(c);
    let script = seq![OP_RETURN] + spec_push(e);
    law_op_return_roundtrip(e);
    law_chunk_payload_roundtrip(c);
    lemma_first_op_return_in(scripts);
    let k = choose|k: int| 0 <= k < scripts.len() && scripts[k] == script;
    assert(e.take(3) =~= spec_chunk_tag());
    assert(spec_marked_op_return(scripts[k]));
}

/// The first OP_RETURN script of a transaction is one of its scripts.
proof fn lemma_first_op_return_in(scripts: Seq<Seq<u8>>)
    ensures
        spec_first_op_return(scripts) matches Some(s) ==> exists|k: int|
            0 <= k < scripts.len() && scripts[k] == s,
    decreases scripts.len(),
{
    if scripts.len() > 0 {
        if spec_is_op_return(scripts[0]) {
            assert(scripts[0] == scripts[0]);
        } else {
            lemma_first_op_return_in(scripts.drop_first());
            if let Some(s) = spec_first_op_return(scripts) {
                let k = choose|k: int| 0 <= k < scripts.drop_first().len() && scripts.drop_first()[k] == s;
                assert(scripts[k + 1] == s);
            }
        }
    }
}

/// Chunks in index order are their own sort.
pub(crate) proof fn lemma_sort_in_order(s: Seq<ChunkView>)
    requires
        forall|i: int, j: int| 0 <= i < j < s.len() ==> s[i].index <= s[j].index,
    ensures
        spec_sort_by_index(s) == s,
    decreases s.len(),
{
    if s.len() > 0 {
        lemma_sort_in_order(s.drop_last());
        assert(s.drop_last().push(s.last()) =~= s);
        if s.len() > 1 {
            assert(s.drop_last().last().index <= s.last().index);
        }
    }
}

/// Chunks whose index is their position and whose total is `total` pass every check.
pub(crate) proof fn lemma_all_valid(s: Seq<ChunkView>, total: u8, i: int)
    requires
        0 <= i <= s.len(),
        forall|j: int| 0 <= j < s.len() ==> s[j].index == j && s[j].total_chunks == total,
    ensures
        spec_first_invalid(s, total, i) is None,
    decreases s.len() - i,
{
    if i < s.len() {
        lemma_all_valid(s, total, i + 1);
    }
}

/// The data of the first `k` chunks of a file that needs several is the file
/// up to where chunk `k` starts, for every `k` before the last chunk.
proof fn lemma_concat_prefix(d: Seq<u8>, k: int)
    requires
        d.len() <= MAX_FILE_SIZE,
        spec_chunk_count(d.len()) >= 2,
        1 <= k <= spec_chunk_count(d.len()) - 1,
    ensures
        spec_concat_data(spec_chunks(d).take(k)) == d.take(spec_chunk_start(k)),
    decreases k,
{
    let cs = spec_chunks(d);
    let n = spec_chunk_count(d.len());
    if k == 1 {
        assert(cs.take(1).drop_last() =~= Seq::<ChunkView>::empty());
        assert(d.len() > FIRST_CHUNK_MAX_DATA);
        assert(cs.take(1).last() == cs[0]);
        assert(spec_concat_data(cs.take(1)) == spec_concat_data(cs.take(1).drop_last()) + cs[0].data);
        assert(spec_concat_data(cs.take(1)) =~= cs[0].data);
    } else {
        lemma_concat_prefix(d, k - 1);
        lemma_chunk_bounds(d.len(), k - 1);
        assert(cs.take(k).drop_last() =~= cs.take(k - 1));
        assert(cs.take(k).last() == cs[k - 1]);
        assert(spec_concat_data(cs.take(k)) == spec_concat_data(cs.take(k - 1)) + cs[k - 1].data);
        assert(d.take(spec_chunk_start(k - 1)) + d.subrange(spec_chunk_start(k - 1), spec_chunk_start(k))
            =~= d.take(spec_chunk_start(k)));
    }
}

/// Decoding the chunks of a file gives the file back.
pub proof fn law_chunks_decode_to_file(d: Seq<u8>)
    requires
        spec_chunk_result(d) is Ok,
    ensures
        spec_decode_chunks(spec_chunks(d)) == Ok::<Seq<u8>, ChainDecodeError>(d),
{
    let cs = spec_chunks(d);
    let n = spec_chunk_count(d.len());
    assert(cs.len() == n);
    assert(cs[0].total_chunks == n);
    assert forall|i: int, j: int| 0 <= i < j < cs.len() implies cs[i].index <= cs[j].index by {
        assert(cs[i].index == i && cs[j].index == j);
    }
    lemma_sort_in_order(cs);
    lemma_all_valid(cs, n as u8, 0);
    if n == 1 {
        assert(cs =~= seq![cs[0]]);
        assert(cs.drop_last() =~= Seq::<ChunkView>::empty());
        assert(spec_concat_data(cs) == spec_concat_data(cs.drop_last()) + cs.last().data);
        assert(spec_concat_data(cs) =~= d);
        assert(d.take(d.len() as int) =~= d);
    } else {
        lemma_concat_prefix(d, n - 1);
        lemma_chunk_bounds(d.len(), n - 1);
        assert(cs.take(n as int).drop_last() =~= cs.take(n - 1));
        assert(cs.take(n as int) =~= cs);
        let piece = cs[n - 1].data;
        let raw = d.subrange(spec_chunk_start(n - 1), d.len() as int);
        assert(piece.take(raw.len() as int) =~= raw);
        assert((d.take(spec_chunk_start(n - 1)) + piece).take(d.len() as int) =~= d);
    }
}

/// Every chunk of a file, written into an OP_RETURN script and read back with
/// the tag that the encoder writes, is that chunk; and the chunks decode to the file.
pub proof fn law_chained_roundtrip(d: Seq<u8>)
    requires
        spec_chunk_result(d) is Ok,
    ensures
        forall|k: int|
            0 <= k < spec_chunks(d).len() ==> {
                let e = spec_encode_chunk(#[trigger] spec_chunks(d)[k]);
                &&& spec_op_return_data(seq![OP_RETURN] + spec_push(e)) == Some(e)
                &&& spec_parse_chunk(e, spec_chunk_tag()) == Ok::<ChunkView, ChainDecodeError>(spec_chunks(d)[k])
            },
        spec_decode_chunks(spec_chunks(d)) == Ok::<Seq<u8>, ChainDecodeError>(d),
{
    law_chunks_decode_to_file(d);
    assert forall|k: int| 0 <= k < spec_chunks(d).len() implies {
        let e = spec_encode_chunk(#[trigger] spec_chunks(d)[k]);
        &&& spec_op_return_data(seq![OP_RETURN] + spec_push(e)) == Some(e)
        &&& spec_parse_chunk(e, spec_chunk_tag()) == Ok::<ChunkView, ChainDecodeError>(spec_chunks(d)[k])
    } by {
        let c = spec_chunks(d)[k];
        let n = spec_chunk_count(d.len());
        if k > 0 {
            lemma_chunk_bounds(d.len(), k);
        }
        assert(c.data.len() <= MAX_DATA_PER_CHUNK);
        law_op_return_roundtrip(spec_encode_chunk(c));
        law_chunk_payload_roundtrip(c);
    }
}

/// Every chunk of a file, encoded, fits the 40 bytes of an OP_RETURN.
pub proof fn law_chunk_payloads_fit(d: Seq<u8>)
    requires
        spec_chunk_result(d) is Ok,
    ensures
        forall|k: int|
            0 <= k < spec_chunks(d).len() ==> spec_encode_chunk(#[trigger] spec_chunks(d)[k]).len()
                <= MAX_OP_RETURN_SIZE,
{
    assert forall|k: int| 0 <= k < spec_chunks(d).len() implies spec_encode_chunk(
        #[trigger] spec_chunks(d)[k],
    ).len() <= MAX_OP_RETURN_SIZE by {
        if k > 0 {
            lemma_chunk_bounds(d.len(), k);
        }
    }
}


/// Walking the encoded chain from transaction `j` on collects the chunks from `j` on.
proof fn lemma_walk_suffix(d: Seq<u8>, txs: Seq<Seq<Seq<u8>>>, j: int)
    requires
        spec_chunk_result(d) is Ok,
        txs.len() == spec_chunks(d).len(),
        forall|k: int| 0 <= k < txs.len() ==> spec_first_op_return(#[trigger] txs[k]) == Some(
            spec_chunk_scripts(d)[k],
        ),
        forall|k: int|
            0 <= k < txs.len() - 1 ==> (#[trigger] txs[k]).len() >= 2 && !(txs[k][1].len() > 0 && txs[k][1][0]
                == OP_RETURN),
        0 <= j < txs.len(),
    ensures
        spec_walk_from(txs, j) == Ok::<Seq<ChunkView>, ChainDecodeError>(spec_chunks(d).skip(j)),
    decreases txs.len() - j,
{
    let cs = spec_chunks(d);
    law_chunk_payloads_fit(d);
    let c = cs[j];
    assert(spec_encode_chunk(c).len() <= MAX_OP_RETURN_SIZE);
    assert(spec_first_op_return(txs[j]) == Some(spec_chunk_scripts(d)[j]));
    assert(spec_chunk_scripts(d)[j] == seq![OP_RETURN] + spec_push(spec_encode_chunk(c)));
    law_extract_encoded_chunk(c, txs[j]);
    if j == txs.len() - 1 {
        assert(cs.skip(j) =~= seq![c]);
        assert(seq![c] + Seq::<ChunkView>::empty() =~= seq![c]);
    } else {
        assert(spec_has_continuation_output(txs[j]));
        lemma_walk_suffix(d, txs, j + 1);
        assert(seq![c] + cs.skip(j + 1) =~= cs.skip(j));
    }
}

/// Following a chain whose transaction `k` has the `k`-th script that
/// `chunk_scripts` writes for a file as its first OP_RETURN output, and, when
/// another transaction follows, a second output that is no OP_RETURN (the
/// continuation, whatever outputs such as change come after it), collects the
/// chunks of the file; they decode to the file. Whatever the last
/// transaction's outputs, the walk ends there, as no spender follows it.
pub proof fn law_walk_encoded_chain(d: Seq<u8>, txs: Seq<Seq<Seq<u8>>>)
    requires
        spec_chunk_result(d) is Ok,
        txs.len() == spec_chunks(d).len(),
        forall|k: int| 0 <= k < txs.len() ==> spec_first_op_return(#[trigger] txs[k]) == Some(
            spec_chunk_scripts(d)[k],
        ),
        forall|k: int|
            0 <= k < txs.len() - 1 ==> (#[trigger] txs[k]).len() >= 2 && !(txs[k][1].len() > 0 && txs[k][1][0]
                == OP_RETURN),
    ensures
        spec_walk_from(txs, 0) == Ok::<Seq<ChunkView>, ChainDecodeError>(spec_chunks(d)),
        spec_decode_chunks(spec_chunks(d)) == Ok::<Seq<u8>, ChainDecodeError>(d),
{
    assert(spec_chunks(d).len() >= 1);
    lemma_walk_suffix(d, txs, 0);
    assert(spec_chunks(d).skip(0) =~= spec_chunks(d));
    law_chunks_decode_to_file(d);
}


/// Every continuation output of a planned chain pays at least one fee, so the
/// last transaction still passes on a spendable amount.
pub proof fn law_continuations_pay_a_fee(n: nat, k: int)
    requires
        1 <= k < n,
    ensures
        spec_next_amount(n, k) >= TX_FEE_SATS,
        n > 1 ==> spec_first_continuation(n) >= TX_FEE_SATS,
{
    assert(spec_first_continuation(n) >= n * TX_FEE_SATS);
}


/// A transaction goes on to a next link exactly when it has a second output
/// that is no OP_RETURN, however many outputs it has: the first transaction of
/// a chain, with its continuation and change outputs, goes on like the others.
pub proof fn law_second_output_continues(scripts: Seq<Seq<u8>>)
    ensures
        spec_has_continuation_output(scripts) <==> (scripts.len() >= 2 && !(scripts[1].len() > 0
            && scripts[1][0] == OP_RETURN)),
{
}

/// In a file that needs two or more chunks, every chunk after the first
/// carries at least 30 data bytes: the middle ones 35 bytes of the file, the
/// last one the rest of the file followed by zeros up to 30 bytes.
pub proof fn law_later_chunks_padded(d: Seq<u8>)
    requires
        spec_chunk_result(d) is Ok,
        spec_chunks(d).len() >= 2,
    ensures
        forall|k: int| 1 <= k < spec_chunks(d).len() ==> (#[trigger] spec_chunks(d)[k]).data.len() >= 30,
        forall|k: int|
            1 <= k < spec_chunks(d).len() - 1 ==> (#[trigger] spec_chunks(d)[k]).data == d.subrange(
                33 + 35 * (k - 1),
                33 + 35 * k,
            ),
        ({
            let n = spec_chunks(d).len() as int;
            let start = 33 + 35 * (n - 2);
            let last = spec_chunks(d)[n - 1].data;
            &&& start < d.len()
            &&& last.len() == if d.len() - start >= 30 { d.len() - start } else { 30 }
            &&& last.take(d.len() - start) == d.skip(start)
            &&& forall|i: int| d.len() - start <= i < last.len() ==> last[i] == 0
        }),
{
    let cs = spec_chunks(d);
    let n = cs.len() as int;
    assert forall|k: int| 1 <= k < n implies (#[trigger] cs[k]).data.len() >= 30 && (k < n - 1 ==> cs[k].data
        == d.subrange(33 + 35 * (k - 1), 33 + 35 * k)) by {
        lemma_chunk_bounds(d.len(), k);
    }
    lemma_chunk_bounds(d.len(), n - 1);
    let start = 33 + 35 * (n - 2);
    let last = cs[n - 1].data;
    let raw = d.subrange(start, d.len() as int);
    assert(raw =~= d.skip(start));
    assert(last.take(d.len() - start) =~= d.skip(start));
}

} // verus!
