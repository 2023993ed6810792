//! Reading image chunks back out of the OP_RETURN outputs of a chain and
//! joining them into the file.
use vstd::prelude::*;
use crate::techniques::chained_op_return::decode::{
    ChainDecodeError, bytes_result_view, spec_prepend, txs_scripts, check_and_join, chunk_parse_view, extract_op_return_data,
    find_op_return_script, has_continuation_output, sort_chunks_by_index, spec_check_and_join,
    spec_first_op_return, spec_has_continuation_output, spec_op_return_data, spec_sort_by_index,
};
use crate::techniques::chained_op_return::encode::{Chunk, ChunkView, chunk_views};
use crate::utils::bytes::copy_range;
use crate::utils::transaction::TxData;
use super::image_encoder::{IMAGE_TAG, METADATA_SIZE};

verus! {

/// The image tag as a sequence: "IMG".
pub open spec fn spec_image_tag() -> Seq<u8> {
    seq![0x49u8, 0x4du8, 0x47u8]
}

/// What parsing the data of an OP_RETURN as an image chunk gives: at least
/// five bytes, the "IMG" tag, the index and the total, then the chunk's data.
pub open spec fn spec_parse_image_chunk(d: Seq<u8>) -> Result<ChunkView, ChainDecodeError> {
    if d.len() < METADATA_SIZE {
        Err(ChainDecodeError::DataTooSmall(d.len() as usize))
    } else if d.take(3) != spec_image_tag() {
        Err(ChainDecodeError::InvalidPrefix)
    } else {
        Ok(ChunkView { index: d[3], total_chunks: d[4], file_size: None, data: d.skip(METADATA_SIZE as int) })
    }
}

/// Parses the data of an OP_RETURN as an image chunk.
pub fn parse_image_chunk(data: &[u8]) -> (r: Result<Chunk, ChainDecodeError>)
    ensures
        chunk_parse_view(r) == spec_parse_image_chunk(data@),
{
    if data.len() < METADATA_SIZE {
        return Err(ChainDecodeError::DataTooSmall(data.len()));
    }
    if data[0] != IMAGE_TAG[0] || data[1] != IMAGE_TAG[1] || data[2] != IMAGE_TAG[2] {
        assert(data@.take(3) != spec_image_tag()) by {
            if data@.take(3) == spec_image_tag() {
                assert(data@.take(3)[0] == data@[0]);
                assert(data@.take(3)[1] == data@[1]);
                assert(data@.take(3)[2] == data@[2]);
            }
        }
        return Err(ChainDecodeError::InvalidPrefix);
    }
    assert(data@.take(3) =~= spec_image_tag());
    let body = copy_range(data, METADATA_SIZE, data.len());
    assert(body@ =~= data@.skip(METADATA_SIZE as int));
    Ok(Chunk { index: data[3], total_chunks: data[4], file_size: None, data: body })
}

/// What extracting the image chunk of a transaction gives: its first OP_RETURN
/// output's data parsed as an image chunk.
pub open spec fn spec_extract_image_chunk(scripts: Seq<Seq<u8>>) -> Result<ChunkView, ChainDecodeError> {
    match spec_first_op_return(scripts) {
        None => Err(ChainDecodeError::NoOpReturnOutput),
        Some(script) => match spec_op_return_data(script) {
            None => Err(ChainDecodeError::ExtractFailed),
            Some(d) => spec_parse_image_chunk(d),
        },
    }
}

/// Extracts the OP_RETURN image chunk of a transaction.
pub fn extract_chunk_from_tx(tx: &TxData) -> (r: Result<Chunk, ChainDecodeError>)
    ensures
        chunk_parse_view(r) == spec_extract_image_chunk(tx.scripts()),
{
    let script = match find_op_return_script(tx) {
        Some(s) => s,
        None => return Err(ChainDecodeError::NoOpReturnOutput),
    };
    let data = match extract_op_return_data(script.as_slice()) {
        Some(d) => d,
        None => return Err(ChainDecodeError::ExtractFailed),
    };
    parse_image_chunk(data.as_slice())
}

/// One step of following an image chain: the chunk of the transaction just
/// reached is added to `chunks`, and the result says whether to look for its spender.
pub fn walk_image_step(chunks: &mut Vec<Chunk>, tx: &TxData) -> (r: Result<bool, ChainDecodeError>)
    ensures
        match spec_extract_image_chunk(tx.scripts()) {
            Err(e) => r == Err::<bool, ChainDecodeError>(e) && final(chunks)@ == old(chunks)@,
            Ok(c) => r == Ok::<bool, ChainDecodeError>(spec_has_continuation_output(tx.scripts()))
                && chunk_views(final(chunks)@) == chunk_views(old(chunks)@).push(c),
        },
{
    let chunk = match extract_chunk_from_tx(tx) {
        Ok(c) => c,
        Err(e) => return Err(e),
    };
    let ghost before = chunks@;
    chunks.push(chunk);
    assert(chunk_views(chunks@) =~= chunk_views(before).push(chunk@));
    Ok(has_continuation_output(tx))
}

/// The image chunks that following a chain from transaction `k` on collects,
/// given the output scripts of the transactions in the order the walk reaches
/// them: the chunk of each, going on to the next while the transaction has a
/// continuation output and a spender of it was found.
pub open spec fn spec_walk_image_from(txs: Seq<Seq<Seq<u8>>>, k: int) -> Result<Seq<ChunkView>, ChainDecodeError>
    decreases txs.len() - k,
{
    if k < 0 || k >= txs.len() {
        Ok(Seq::empty())
    } else {
        match spec_extract_image_chunk(txs[k]) {
            Err(e) => Err(e),
            Ok(c) => if spec_has_continuation_output(txs[k]) {
                match spec_walk_image_from(txs, k + 1) {
                    Err(e) => Err(e),
                    Ok(cs) => Ok(seq![c] + cs),
                }
            } else {
                Ok(seq![c])
            },
        }
    }
}

/// Follows an image chain through the transactions `txs`, in the order the
/// walk reaches them, and collects its chunks.
pub fn collect_image_chain(txs: &Vec<TxData>) -> (r: Result<Vec<Chunk>, ChainDecodeError>)
    ensures
        match r {
            Ok(cs) => spec_walk_image_from(txs_scripts(txs@), 0) == Ok::<Seq<ChunkView>, ChainDecodeError>(
                chunk_views(cs@),
            ),
            Err(e) => spec_walk_image_from(txs_scripts(txs@), 0) == Err::<Seq<ChunkView>, ChainDecodeError>(e),
        },
{
    let ghost all = txs_scripts(txs@);
    let mut chunks: Vec<Chunk> = Vec::new();
    let mut k: usize = 0;
    assert(chunk_views(chunks@) =~= Seq::<ChunkView>::empty());
    assert(spec_prepend(Seq::empty(), spec_walk_image_from(all, 0)) == spec_walk_image_from(all, 0)) by {
        match spec_walk_image_from(all, 0) {
            Ok(cs) => assert(Seq::<ChunkView>::empty() + cs =~= cs),
            Err(e) => {},
        }
    }
    while k < txs.len()
        invariant
            k <= txs@.len(),
            all == txs_scripts(txs@),
            spec_walk_image_from(all, 0) == spec_prepend(chunk_views(chunks@), spec_walk_image_from(all, k as int)),
        decreases txs@.len() - k,
    {
        assert(all[k as int] == txs@[k as int].scripts());
        let ghost before = chunk_views(chunks@);
        let go_on = match walk_image_step(&mut chunks, &txs[k]) {
            Ok(b) => b,
            Err(e) => return Err(e),
        };
        let ghost c = chunk_views(chunks@).last();
        if !go_on {
            assert(chunk_views(chunks@) =~= before + seq![c]);
            return Ok(chunks);
        }
        proof {
            match spec_walk_image_from(all, k + 1) {
                Ok(cs) => assert(before + (seq![c] + cs) =~= chunk_views(chunks@) + cs),
                Err(e) => {},
            }
        }
        k = k + 1;
    }
    assert(chunk_views(chunks@) + Seq::<ChunkView>::empty() =~= chunk_views(chunks@));
    Ok(chunks)
}

/// What joining the image chunks collected from a chain gives. There must be
/// some chunks, as many as the first announces; sorted by index, the chunk at
/// each position must have that index and the first chunk's total; the file is
/// their data, one after the other.
pub open spec fn spec_decode_image_chunks(cs: Seq<ChunkView>) -> Result<Seq<u8>, ChainDecodeError> {
    if cs.len() == 0 {
        Err(ChainDecodeError::NoChunks)
    } else if cs.len() != cs[0].total_chunks {
        Err(ChainDecodeError::MissingChunks { announced: cs[0].total_chunks, found: cs.len() as usize })
    } else {
        spec_check_and_join(spec_sort_by_index(cs), cs[0].total_chunks)
    }
}

/// Joins the image chunks collected from a chain into the file.
pub fn decode_image_chunks(chunks: Vec<Chunk>) -> (r: Result<Vec<u8>, ChainDecodeError>)
    ensures
        bytes_result_view(r) == spec_decode_image_chunks(chunk_views(chunks@)),
{
    let ghost cs = chunk_views(chunks@);
    if chunks.len() == 0 {
        return Err(ChainDecodeError::NoChunks);
    }
    assert(cs[0] == chunks@[0]@);
    let total_chunks = chunks[0].total_chunks;
    if chunks.len() != total_chunks as usize {
        return Err(ChainDecodeError::MissingChunks { announced: total_chunks, found: chunks.len() });
    }
    let sorted = sort_chunks_by_index(chunks);
    check_and_join(&sorted, total_chunks)
}

} // verus!
