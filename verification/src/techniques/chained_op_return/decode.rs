//! Reading chunks back out of OP_RETURN scripts and reassembling the file.
use vstd::prelude::*;
use crate::script::{is_op_return, spec_is_op_return, OP_RETURN, OP_PUSHDATA1, OP_PUSHDATA2, OP_PUSHDATA4};
use crate::utils::bytes::{append_bytes, copy_range};
use crate::utils::transaction::{TxData, OutPointData, spec_spends, spends_output};
use super::encode::{
    Chunk, ChunkView, chunk_views, CHUNK_TAG, spec_chunk_tag, CONTINUATION_OUTPUT_INDEX, METADATA_SIZE, FIRST_CHUNK_METADATA_SIZE,
};

verus! {

/// Errors of decoding a chain of chunks.
#[derive(Debug, Clone, Copy, PartialEq, Eq, Structural)]
pub enum ChainDecodeError {
    /// The chain held no chunk.
    NoChunks,
    /// The first chunk announced `announced` chunks, but `found` were collected.
    MissingChunks { announced: u8, found: usize },
    /// The first chunk collected carries no file size.
    MissingFileSize,
    /// After sorting by index, the chunk at this position has another index.
    MissingChunkIndex(usize),
    /// After sorting by index, the chunk at this position announces another total.
    InconsistentTotal(usize),
    /// The chunks hold `got` bytes, fewer than the file size.
    IncompleteData { file_size: usize, got: usize },
    /// The transaction has no OP_RETURN output.
    NoOpReturnOutput,
    /// The OP_RETURN script holds no readable push.
    ExtractFailed,
    /// The OP_RETURN data is shorter than a chunk header.
    DataTooSmall(usize),
    /// The OP_RETURN data does not start with the expected prefix.
    InvalidPrefix,
    /// The first chunk is shorter than its header.
    FirstChunkTooSmall(usize),
}

/// A little-endian number of bytes `b[from..from + 2]`.
pub open spec fn le16(b: Seq<u8>, from: int) -> int {
    b[from] + 256 * b[from + 1]
}

/// A little-endian number of bytes `b[from..from + 4]`.
pub open spec fn le32(b: Seq<u8>, from: int) -> int {
    b[from] + 256 * b[from + 1] + 65536 * b[from + 2] + 16777216 * b[from + 3]
}

/// The `len` bytes of `b` from `start`, if `b` holds them.
pub open spec fn spec_take_bytes(b: Seq<u8>, start: int, len: int) -> Option<Seq<u8>> {
    if start + len > b.len() {
        None
    } else {
        Some(b.subrange(start, start + len))
    }
}

/// The data that an OP_RETURN script carries: OP_RETURN, then a push opcode.
/// A direct push (opcode 0 to 75) holds that many bytes after the opcode;
/// OP_PUSHDATA1, OP_PUSHDATA2 and OP_PUSHDATA4 hold as many bytes as their
/// one, two or four little-endian length bytes say, after those bytes.
pub open spec fn spec_op_return_data(b: Seq<u8>) -> Option<Seq<u8>> {
    if b.len() < 2 || b[0] != OP_RETURN {
        None
    } else if b[1] == OP_PUSHDATA1 {
        if b.len() < 3 {
            None
        } else {
            spec_take_bytes(b, 3, b[2] as int)
        }
    } else if b[1] == OP_PUSHDATA2 {
        if b.len() < 4 {
            None
        } else {
            spec_take_bytes(b, 4, le16(b, 2))
        }
    } else if b[1] == OP_PUSHDATA4 {
        if b.len() < 6 {
            None
        } else {
            spec_take_bytes(b, 6, le32(b, 2))
        }
    } else if b[1] <= 75 {
        spec_take_bytes(b, 2, b[1] as int)
    } else {
        None
    }
}

/// The view of an optional byte vector.
pub open spec fn opt_bytes_view(r: Option<Vec<u8>>) -> Option<Seq<u8>> {
    match r {
        Some(v) => Some(v@),
        None => None,
    }
}

/// Extracts raw data from an OP_RETURN script.
pub fn extract_op_return_data(bytes: &[u8]) -> (r: Option<Vec<u8>>)
    ensures
        opt_bytes_view(r) == spec_op_return_data(bytes@),
{
    if bytes.len() == 0 || bytes[0] != OP_RETURN {
        return None;
    }
    if bytes.len() < 2 {
        return None;
    }
    let op = bytes[1];
    let data_len: usize;
    let start: usize;
    if op == OP_PUSHDATA1 {
        if bytes.len() < 3 {
            return None;
        }
        data_len = bytes[2] as usize;
        start = 3;
    } else if op == OP_PUSHDATA2 {
        if bytes.len() < 4 {
            return None;
        }
        data_len = bytes[2] as usize + 256 * (bytes[3] as usize);
        start = 4;
    } else if op == OP_PUSHDATA4 {
        if bytes.len() < 6 {
            return None;
        }
        let len32: u32 = bytes[2] as u32 + 256 * (bytes[3] as u32) + 65536 * (bytes[4] as u32)
            + 16777216 * (bytes[5] as u32);
        data_len = len32 as usize;
        start = 6;
    } else if op <= 75 {
        data_len = op as usize;
        start = 2;
    } else {
        return None;
    }
    if data_len > bytes.len() - start {
        return None;
    }
    Some(copy_range(bytes, start, start + data_len))
}

/// What parsing the data of an OP_RETURN as a chunk gives, for a three-byte
/// `prefix`: at least five bytes, the prefix, the index and the total; a first
/// chunk (index 0) has at least seven bytes, with the file size in bytes 5
/// and 6 (little-endian) and its data after them; any other chunk has its data
/// after byte 4.
pub open spec fn spec_parse_chunk(d: Seq<u8>, prefix: Seq<u8>) -> Result<ChunkView, ChainDecodeError> {
    if d.len() < METADATA_SIZE {
        Err(ChainDecodeError::DataTooSmall(d.len() as usize))
    } else if d.take(3) != prefix {
        Err(ChainDecodeError::InvalidPrefix)
    } else if d[3] == 0 {
        if d.len() < FIRST_CHUNK_METADATA_SIZE {
            Err(ChainDecodeError::FirstChunkTooSmall(d.len() as usize))
        } else {
            Ok(
                ChunkView {
                    index: 0,
                    total_chunks: d[4],
                    file_size: Some(le16(d, 5) as u16),
                    data: d.skip(FIRST_CHUNK_METADATA_SIZE as int),
                },
            )
        }
    } else {
        Ok(
            ChunkView {
                index: d[3],
                total_chunks: d[4],
                file_size: None,
                data: d.skip(METADATA_SIZE as int),
            },
        )
    }
}

/// The view of a chunk result.
pub open spec fn chunk_parse_view(r: Result<Chunk, ChainDecodeError>) -> Result<ChunkView, ChainDecodeError> {
    match r {
        Ok(c) => Ok(c@),
        Err(e) => Err(e),
    }
}

/// Parses the data of an OP_RETURN as a chunk whose first three bytes must be `prefix`.
pub fn parse_chunk_payload(data: &[u8], prefix: &[u8; 3]) -> (r: Result<Chunk, ChainDecodeError>)
    ensures
        chunk_parse_view(r) == spec_parse_chunk(data@, prefix@),
{
    if data.len() < METADATA_SIZE {
        return Err(ChainDecodeError::DataTooSmall(data.len()));
    }
    if data[0] != prefix[0] || data[1] != prefix[1] || data[2] != prefix[2] {
        assert(data@.take(3) != prefix@) by {
            if data@.take(3) == prefix@ {
                assert(data@.take(3)[0] == data@[0]);
                assert(data@.take(3)[1] == data@[1]);
                assert(data@.take(3)[2] == data@[2]);
            }
        }
        return Err(ChainDecodeError::InvalidPrefix);
    }
    assert(data@.take(3) =~= prefix@);
    let index = data[3];
    let total_chunks = data[4];
    if index == 0 {
        if data.len() < FIRST_CHUNK_METADATA_SIZE {
            return Err(ChainDecodeError::FirstChunkTooSmall(data.len()));
        }
        let size: u16 = data[5] as u16 + 256 * (data[6] as u16);
        let body = copy_range(data, FIRST_CHUNK_METADATA_SIZE, data.len());
        assert(body@ =~= data@.skip(FIRST_CHUNK_METADATA_SIZE as int));
        Ok(Chunk { index, total_chunks, file_size: Some(size), data: body })
    } else {
        let body = copy_range(data, METADATA_SIZE, data.len());
        assert(body@ =~= data@.skip(METADATA_SIZE as int));
        Ok(Chunk { index, total_chunks, file_size: None, data: body })
    }
}

/// The script of the first OP_RETURN output among `scripts`.
pub open spec fn spec_first_op_return(scripts: Seq<Seq<u8>>) -> Option<Seq<u8>>
    decreases scripts.len(),
{
    if scripts.len() == 0 {
        None
    } else if spec_is_op_return(scripts[0]) {
        Some(scripts[0])
    } else {
        spec_first_op_return(scripts.drop_first())
    }
}

/// What extracting the chunk of a transaction gives: its first OP_RETURN
/// output's data parsed as a chunk with the given prefix.
pub open spec fn spec_extract_chunk_with(scripts: Seq<Seq<u8>>, prefix: Seq<u8>) -> Result<ChunkView, ChainDecodeError> {
    match spec_first_op_return(scripts) {
        None => Err(ChainDecodeError::NoOpReturnOutput),
        Some(script) => match spec_op_return_data(script) {
            None => Err(ChainDecodeError::ExtractFailed),
            Some(d) => spec_parse_chunk(d, prefix),
        },
    }
}

/// What extracting the chunk of a transaction gives, with the "IMG" tag that
/// the chunk encoder writes.
pub open spec fn spec_extract_chunk(scripts: Seq<Seq<u8>>) -> Result<ChunkView, ChainDecodeError> {
    spec_extract_chunk_with(scripts, spec_chunk_tag())
}

/// Finds the first OP_RETURN output script of a transaction.
pub fn find_op_return_script(tx: &TxData) -> (r: Option<&Vec<u8>>)
    ensures
        opt_bytes_view(
            match r {
                Some(v) => Some(*v),
                None => None,
            },
        ) == spec_first_op_return(tx.scripts()),
{
    let ghost all = tx.scripts();
    let mut i: usize = 0;
    assert(all.skip(0) =~= all);
    while i < tx.output_scripts.len()
        invariant
            i <= tx.output_scripts@.len(),
            all == tx.scripts(),
            spec_first_op_return(all) == spec_first_op_return(all.skip(i as int)),
        decreases tx.output_scripts@.len() - i,
    {
        assert(all.skip(i as int)[0] == tx.output_scripts@[i as int]@);
        if is_op_return(tx.output_scripts[i].as_slice()) {
            return Some(&tx.output_scripts[i]);
        }
        assert(all.skip(i as int).drop_first() =~= all.skip(i + 1));
        i = i + 1;
    }
    assert(all.skip(i as int) =~= Seq::<Seq<u8>>::empty());
    None
}

/// Extracts the chunk of a transaction: the data of its first OP_RETURN
/// output, parsed as a chunk whose first three bytes must be `prefix`.
pub fn extract_chunk_with_prefix(tx: &TxData, prefix: &[u8; 3]) -> (r: Result<Chunk, ChainDecodeError>)
    ensures
        chunk_parse_view(r) == spec_extract_chunk_with(tx.scripts(), prefix@),
{
    let script = match find_op_return_script(tx) {
        Some(s) => s,
        None => return Err(ChainDecodeError::NoOpReturnOutput),
    };
    let data = match extract_op_return_data(script.as_slice()) {
        Some(d) => d,
        None => return Err(ChainDecodeError::ExtractFailed),
    };
    parse_chunk_payload(data.as_slice(), prefix)
}

/// Extracts the OP_RETURN chunk data from a transaction.
pub fn extract_chunk_from_tx(tx: &TxData) -> (r: Result<Chunk, ChainDecodeError>)
    ensures
        chunk_parse_view(r) == spec_extract_chunk(tx.scripts()),
{
    assert(CHUNK_TAG@ == spec_chunk_tag());
    extract_chunk_with_prefix(tx, &CHUNK_TAG)
}

/// Whether a transaction has a continuation output: an output at position 1
/// that is not an OP_RETURN.
pub open spec fn spec_has_continuation_output(scripts: Seq<Seq<u8>>) -> bool {
    scripts.len() >= 2 && !spec_is_op_return(scripts[1])
}

/// Whether the chain goes on after this transaction, so that its spender must be looked for.
pub fn has_continuation_output(tx: &TxData) -> (r: bool)
    ensures
        r == spec_has_continuation_output(tx.scripts()),
{
    if tx.output_scripts.len() < 2 {
        return false;
    }
    !is_op_return(tx.output_scripts[1].as_slice())
}

/// The chunks that following a chain from transaction `k` on collects, given
/// the output scripts of the transactions in the order the walk reaches them:
/// the chunk of each, going on to the next while the transaction has a
/// continuation output and a spender of it was found.
pub open spec fn spec_walk_from(txs: Seq<Seq<Seq<u8>>>, k: int) -> Result<Seq<ChunkView>, ChainDecodeError>
    decreases txs.len() - k,
{
    if k < 0 || k >= txs.len() {
        Ok(Seq::empty())
    } else {
        match spec_extract_chunk(txs[k]) {
            Err(e) => Err(e),
            Ok(c) => if spec_has_continuation_output(txs[k]) {
                match spec_walk_from(txs, k + 1) {
                    Err(e) => Err(e),
                    Ok(cs) => Ok(seq![c] + cs),
                }
            } else {
                Ok(seq![c])
            },
        }
    }
}

/// `r` with the chunks `p` in front, when it holds chunks.
pub open spec fn spec_prepend(p: Seq<ChunkView>, r: Result<Seq<ChunkView>, ChainDecodeError>) -> Result<
    Seq<ChunkView>,
    ChainDecodeError,
> {
    match r {
        Err(e) => Err(e),
        Ok(cs) => Ok(p + cs),
    }
}

/// The output scripts of transactions.
pub open spec fn txs_scripts(txs: Seq<TxData>) -> Seq<Seq<Seq<u8>>> {
    txs.map_values(|t: TxData| t.scripts())
}

/// One step of following a chain: the chunk of the transaction just reached is
/// added to `chunks`, and the result says whether to look for its spender.
pub fn walk_step(chunks: &mut Vec<Chunk>, tx: &TxData) -> (r: Result<bool, ChainDecodeError>)
    ensures
        match spec_extract_chunk(tx.scripts()) {
            Err(e) => r == Err::<bool, ChainDecodeError>(e) && final(chunks)@ == old(chunks)@,
            Ok(c) => r == Ok::<bool, ChainDecodeError>(spec_has_continuation_output(tx.scripts()))
                && chunk_views(final(chunks)@) == chunk_views(old(chunks)@).push(c),
        },
{
    let chunk = match extract_chunk_from_tx(tx) {
        Ok(c) => c,
        Err(e) => return Err(e),
    };
    let ghost before = chunks@;
    chunks.push(chunk);
    assert(chunk_views(chunks@) =~= chunk_views(before).push(chunk@));
    Ok(has_continuation_output(tx))
}

/// Follows a chain through the transactions `txs`, in the order the walk
/// reaches them, and collects its chunks.
pub fn collect_chain(txs: &Vec<TxData>) -> (r: Result<Vec<Chunk>, ChainDecodeError>)
    ensures
        match r {
            Ok(cs) => spec_walk_from(txs_scripts(txs@), 0) == Ok::<Seq<ChunkView>, ChainDecodeError>(chunk_views(cs@)),
            Err(e) => spec_walk_from(txs_scripts(txs@), 0) == Err::<Seq<ChunkView>, ChainDecodeError>(e),
        },
{
    let ghost all = txs_scripts(txs@);
    let mut chunks: Vec<Chunk> = Vec::new();
    let mut k: usize = 0;
    assert(chunk_views(chunks@) =~= Seq::<ChunkView>::empty());
    assert(spec_prepend(Seq::empty(), spec_walk_from(all, 0)) == spec_walk_from(all, 0)) by {
        match spec_walk_from(all, 0) {
            Ok(cs) => assert(Seq::<ChunkView>::empty() + cs =~= cs),
            Err(e) => {},
        }
    }
    while k < txs.len()
        invariant
            k <= txs@.len(),
            all == txs_scripts(txs@),
            spec_walk_from(all, 0) == spec_prepend(chunk_views(chunks@), spec_walk_from(all, k as int)),
        decreases txs@.len() - k,
    {
        assert(all[k as int] == txs@[k as int].scripts());
        let ghost before = chunk_views(chunks@);
        let go_on = match walk_step(&mut chunks, &txs[k]) {
            Ok(b) => b,
            Err(e) => return Err(e),
        };
        let ghost c = chunk_views(chunks@).last();
        if !go_on {
            assert(chunk_views(chunks@) =~= before + seq![c]);
            return Ok(chunks);
        }
        proof {
            match spec_walk_from(all, k + 1) {
                Ok(cs) => assert(before + (seq![c] + cs) =~= chunk_views(chunks@) + cs),
                Err(e) => {},
            }
        }
        k = k + 1;
    }
    assert(chunk_views(chunks@) + Seq::<ChunkView>::empty() =~= chunk_views(chunks@));
    Ok(chunks)
}

/// How many blocks after a transaction's own its spender is looked for.
pub const MAX_BLOCKS_TO_SCAN: u64 = 100;

/// Whether a transaction whose inputs spend `prevouts` is the next link of the
/// chain after the transaction with id `txid`: it spends that transaction's
/// continuation output.
pub fn spends_continuation(prevouts: &[OutPointData], txid: &[u8]) -> (r: bool)
    ensures
        r == spec_spends(prevouts@, txid@, CONTINUATION_OUTPUT_INDEX),
{
    spends_output(prevouts, txid, CONTINUATION_OUTPUT_INDEX)
}

/// The last block height searched for the spender of a transaction confirmed
/// at `start_height`, the chain being at `current_height`.
pub fn last_scan_height(start_height: u64, current_height: u64) -> (r: u64)
    requires
        start_height + MAX_BLOCKS_TO_SCAN <= u64::MAX,
    ensures
        r == if current_height < start_height + MAX_BLOCKS_TO_SCAN {
            current_height as int
        } else {
            start_height + MAX_BLOCKS_TO_SCAN
        },
{
    let last = start_height + MAX_BLOCKS_TO_SCAN;
    if current_height < last {
        current_height
    } else {
        last
    }
}

/// `c` inserted after the chunks of `s` whose index is at most its own, scanning
/// from the end.
pub open spec fn spec_insert_by_index(s: Seq<ChunkView>, c: ChunkView) -> Seq<ChunkView>
    decreases s.len(),
{
    if s.len() == 0 {
        seq![c]
    } else if s.last().index <= c.index {
        s.push(c)
    } else {
        spec_insert_by_index(s.drop_last(), c).push(s.last())
    }
}

/// The chunks of `s` sorted by index, chunks of equal index keeping their
/// order (`law_sort_by_index_is_stable_sort`): each chunk in turn is inserted
/// after those before it whose index is at most its own.
pub open spec fn spec_sort_by_index(s: Seq<ChunkView>) -> Seq<ChunkView>
    decreases s.len(),
{
    if s.len() == 0 {
        s
    } else {
        spec_insert_by_index(spec_sort_by_index(s.drop_last()), s.last())
    }
}

/// Inserting at a position after every chunk of index at most `c`'s and before
/// every chunk of a greater index is the insertion that defines the sort.
proof fn lemma_insert_at(s: Seq<ChunkView>, c: ChunkView, p: int)
    requires
        0 <= p <= s.len(),
        forall|q: int| p <= q < s.len() ==> #[trigger] s[q].index > c.index,
        p == 0 || s[p - 1].index <= c.index,
    ensures
        spec_insert_by_index(s, c) == s.take(p) + seq![c] + s.skip(p),
    decreases s.len(),
{
    if s.len() == 0 {
        assert(s.take(p) + seq![c] + s.skip(p) =~= seq![c]);
    } else if p == s.len() {
        assert(s.take(p) + seq![c] + s.skip(p) =~= s.push(c));
    } else {
        assert(s.last().index > c.index);
        lemma_insert_at(s.drop_last(), c, p);
        assert(s.drop_last().take(p) + seq![c] + s.drop_last().skip(p) + seq![s.last()]
            =~= s.take(p) + seq![c] + s.skip(p));
    }
}

/// Where `spec_insert_by_index` puts `c` in `s`: after the last chunk, scanning
/// from the end, whose index is at most its own.
pub open spec fn spec_insert_pos(s: Seq<ChunkView>, c: ChunkView) -> int
    decreases s.len(),
{
    if s.len() == 0 {
        0
    } else if s.last().index <= c.index {
        s.len() as int
    } else {
        spec_insert_pos(s.drop_last(), c)
    }
}

/// Whether `s` is ordered by index.
pub open spec fn spec_sorted_by_index(s: Seq<ChunkView>) -> bool {
    forall|i: int, j: int| 0 <= i < j < s.len() ==> s[i].index <= s[j].index
}

/// Inserting into chunks ordered by index puts `c` after every chunk of index
/// at most its own and before every chunk of a greater index.
proof fn lemma_insert_pos(s: Seq<ChunkView>, c: ChunkView)
    requires
        spec_sorted_by_index(s),
    ensures
        0 <= spec_insert_pos(s, c) <= s.len(),
        spec_insert_by_index(s, c) == s.take(spec_insert_pos(s, c)) + seq![c] + s.skip(spec_insert_pos(s, c)),
        forall|q: int| 0 <= q < spec_insert_pos(s, c) ==> #[trigger] s[q].index <= c.index,
        forall|q: int| spec_insert_pos(s, c) <= q < s.len() ==> #[trigger] s[q].index > c.index,
    decreases s.len(),
{
    let p = spec_insert_pos(s, c);
    if s.len() == 0 {
    } else if s.last().index <= c.index {
        assert forall|q: int| 0 <= q < p implies #[trigger] s[q].index <= c.index by {
            if q < s.len() - 1 {
                assert(s[q].index <= s[s.len() - 1].index);
            }
        }
        lemma_insert_at(s, c, p);
    } else {
        lemma_insert_pos(s.drop_last(), c);
        assert forall|q: int| p <= q < s.len() implies #[trigger] s[q].index > c.index by {
            if q < s.len() - 1 {
                assert(s.drop_last()[q] == s[q]);
            }
        }
        assert forall|q: int| 0 <= q < p implies #[trigger] s[q].index <= c.index by {
            assert(s.drop_last()[q] == s[q]);
        }
        lemma_insert_at(s, c, p);
    }
}

/// The positions in `s` that the sorted chunks come from.
pub open spec fn spec_sort_perm(s: Seq<ChunkView>) -> Seq<int>
    decreases s.len(),
{
    if s.len() == 0 {
        Seq::empty()
    } else {
        let q = spec_sort_perm(s.drop_last());
        let p = spec_insert_pos(spec_sort_by_index(s.drop_last()), s.last());
        q.take(p) + seq![s.len() - 1] + q.skip(p)
    }
}

/// Sorting by index is a stable sort: the sorted chunks are the chunks of `s`,
/// each once, taken from the positions `spec_sort_perm(s)`; they are ordered by
/// index; and chunks of equal index keep the order they had in `s`.
pub proof fn law_sort_by_index_is_stable_sort(s: Seq<ChunkView>)
    ensures
        ({
            let t = spec_sort_by_index(s);
            let q = spec_sort_perm(s);
            &&& t.len() == s.len() && q.len() == s.len()
            &&& forall|i: int| 0 <= i < q.len() ==> 0 <= #[trigger] q[i] < s.len() && t[i] == s[q[i]]
            &&& forall|i: int, j: int| 0 <= i < j < q.len() ==> q[i] != q[j]
            &&& spec_sorted_by_index(t)
            &&& forall|i: int, j: int| 0 <= i < j < t.len() && t[i].index == t[j].index ==> q[i] < q[j]
        }),
    decreases s.len(),
{
    if s.len() > 0 {
        let s0 = s.drop_last();
        let c = s.last();
        law_sort_by_index_is_stable_sort(s0);
        let t0 = spec_sort_by_index(s0);
        let q0 = spec_sort_perm(s0);
        lemma_insert_pos(t0, c);
        let p = spec_insert_pos(t0, c);
        let t = spec_sort_by_index(s);
        let q = spec_sort_perm(s);
        let n = s.len() as int;
        assert(t == t0.take(p) + seq![c] + t0.skip(p));
        assert(q == q0.take(p) + seq![n - 1] + q0.skip(p));
        assert forall|i: int| 0 <= i < q.len() implies 0 <= #[trigger] q[i] < s.len() && t[i] == s[q[i]] by {
            if i < p {
                assert(q[i] == q0[i] && t[i] == t0[i]);
                assert(s0[q0[i]] == s[q0[i]]);
            } else if i > p {
                assert(q[i] == q0[i - 1] && t[i] == t0[i - 1]);
                assert(s0[q0[i - 1]] == s[q0[i - 1]]);
            }
        }
        assert forall|i: int, j: int| 0 <= i < j < q.len() implies q[i] != q[j] && t[i].index <= t[j].index
            && (t[i].index == t[j].index ==> q[i] < q[j]) by {
            if i < p && j < p {
                assert(q[i] == q0[i] && q[j] == q0[j] && t[i] == t0[i] && t[j] == t0[j]);
            } else if i < p && j == p {
                assert(q[i] == q0[i] && t[i] == t0[i]);
                assert(t0[i].index <= c.index);
            } else if i < p && j > p {
                assert(q[i] == q0[i] && q[j] == q0[j - 1] && t[i] == t0[i] && t[j] == t0[j - 1]);
            } else if i == p {
                assert(q[j] == q0[j - 1] && t[j] == t0[j - 1]);
                assert(t0[j - 1].index > c.index);
            } else {
                assert(q[i] == q0[i - 1] && q[j] == q0[j - 1] && t[i] == t0[i - 1] && t[j] == t0[j - 1]);
            }
        }
    }
}

/// Sorts chunks by index; chunks of equal index keep their order.
pub fn sort_chunks_by_index(chunks: Vec<Chunk>) -> (r: Vec<Chunk>)
    ensures
        chunk_views(r@) == spec_sort_by_index(chunk_views(chunks@)),
{
    let ghost orig = chunk_views(chunks@);
    let mut sorted: Vec<Chunk> = Vec::new();
    let mut rest = chunks;
    let ghost mut k: int = 0;
    assert(orig.take(0) =~= Seq::<ChunkView>::empty());
    assert(orig.skip(0) =~= orig);
    while rest.len() > 0
        invariant
            0 <= k <= orig.len(),
            k + rest@.len() == orig.len(),
            chunk_views(sorted@) == spec_sort_by_index(orig.take(k)),
            chunk_views(rest@) == orig.skip(k),
        decreases rest@.len(),
    {
        let ghost before_rest = rest@;
        let c = rest.remove(0);
        assert(c@ == orig[k]) by {
            assert(chunk_views(before_rest)[0] == orig.skip(k)[0]);
        }
        assert(chunk_views(rest@) =~= orig.skip(k + 1)) by {
            assert(rest@ =~= before_rest.drop_first());
            assert(chunk_views(before_rest.drop_first()) =~= chunk_views(before_rest).drop_first());
            assert(orig.skip(k).drop_first() =~= orig.skip(k + 1));
        }
        let ghost sv = chunk_views(sorted@);
        let mut p: usize = sorted.len();
        while p > 0 && sorted[p - 1].index > c.index
            invariant
                p <= sorted@.len(),
                sv == chunk_views(sorted@),
                forall|q: int| p <= q < sorted@.len() ==> #[trigger] sorted@[q].index > c.index,
            decreases p,
        {
            p = p - 1;
        }
        proof {
            assert forall|q: int| p <= q < sv.len() implies #[trigger] sv[q].index > c.index by {
                assert(sv[q] == sorted@[q]@);
            }
            if p > 0 {
                assert(sv[p - 1] == sorted@[p - 1]@);
            }
            lemma_insert_at(sv, c@, p as int);
        }
        let ghost before_sorted = sorted@;
        sorted.insert(p, c);
        proof {
            assert(chunk_views(sorted@) =~= sv.take(p as int) + seq![c@] + sv.skip(p as int)) by {
                assert(sorted@ == before_sorted.insert(p as int, c));
            }
            assert(orig.take(k + 1).drop_last() =~= orig.take(k));
            assert(orig.take(k + 1).last() == orig[k]);
            k = k + 1;
        }
    }
    assert(orig.take(k) =~= orig);
    sorted
}

/// The data of the chunks of `s`, one after the other.
pub open spec fn spec_concat_data(s: Seq<ChunkView>) -> Seq<u8>
    decreases s.len(),
{
    if s.len() == 0 {
        Seq::empty()
    } else {
        spec_concat_data(s.drop_last()) + s.last().data
    }
}

/// The first position from `i` on where the sorted chunks `s` fail: the chunk
/// there has another index than its position, or another total than `total`.
pub open spec fn spec_first_invalid(s: Seq<ChunkView>, total: u8, i: int) -> Option<ChainDecodeError>
    decreases s.len() - i,
{
    if i < 0 || i >= s.len() {
        None
    } else if s[i].index != i {
        Some(ChainDecodeError::MissingChunkIndex(i as usize))
    } else if s[i].total_chunks != total {
        Some(ChainDecodeError::InconsistentTotal(i as usize))
    } else {
        spec_first_invalid(s, total, i + 1)
    }
}

/// What decoding the chunks collected from a chain gives. There must be some
/// chunks, as many as the first announces, and the first must carry the file
/// size. Sorted by index, the chunk at each position must have that index and
/// the first chunk's total. The file is the data of the sorted chunks, one
/// after the other, cut to the file size; it is an error when they hold fewer
/// bytes.
pub open spec fn spec_decode_chunks(cs: Seq<ChunkView>) -> Result<Seq<u8>, ChainDecodeError> {
    if cs.len() == 0 {
        Err(ChainDecodeError::NoChunks)
    } else if cs.len() != cs[0].total_chunks {
        Err(ChainDecodeError::MissingChunks { announced: cs[0].total_chunks, found: cs.len() as usize })
    } else if cs[0].file_size is None {
        Err(ChainDecodeError::MissingFileSize)
    } else {
        let sorted = spec_sort_by_index(cs);
        let size = cs[0].file_size->0 as int;
        match spec_first_invalid(sorted, cs[0].total_chunks, 0) {
            Some(e) => Err(e),
            None => {
                let all = spec_concat_data(sorted);
                if all.len() >= size {
                    Ok(all.take(size))
                } else {
                    Err(ChainDecodeError::IncompleteData { file_size: size as usize, got: all.len() as usize })
                }
            },
        }
    }
}

/// The view of a decoding result.
pub open spec fn bytes_result_view(r: Result<Vec<u8>, ChainDecodeError>) -> Result<Seq<u8>, ChainDecodeError> {
    match r {
        Ok(v) => Ok(v@),
        Err(e) => Err(e),
    }
}

/// What checking chunks sorted by index gives: the first position whose chunk
/// has another index or another total than `total`, else their data joined.
pub open spec fn spec_check_and_join(sv: Seq<ChunkView>, total: u8) -> Result<Seq<u8>, ChainDecodeError> {
    match spec_first_invalid(sv, total, 0) {
        Some(e) => Err(e),
        None => Ok(spec_concat_data(sv)),
    }
}

/// Checks that the chunk at each position of `sorted` has that index and the
/// total `total`, and joins their data.
pub fn check_and_join(sorted: &Vec<Chunk>, total: u8) -> (r: Result<Vec<u8>, ChainDecodeError>)
    ensures
        bytes_result_view(r) == spec_check_and_join(chunk_views(sorted@), total),
{
    let ghost sv = chunk_views(sorted@);
    let mut i: usize = 0;
    while i < sorted.len()
        invariant
            i <= sorted@.len(),
            sv == chunk_views(sorted@),
            spec_first_invalid(sv, total, 0) == spec_first_invalid(sv, total, i as int),
        decreases sorted@.len() - i,
    {
        assert(sv[i as int] == sorted@[i as int]@);
        if sorted[i].index as usize != i {
            return Err(ChainDecodeError::MissingChunkIndex(i));
        }
        if sorted[i].total_chunks != total {
            return Err(ChainDecodeError::InconsistentTotal(i));
        }
        i = i + 1;
    }
    let mut file_data: Vec<u8> = Vec::new();
    let mut j: usize = 0;
    assert(sv.take(0) =~= Seq::<ChunkView>::empty());
    while j < sorted.len()
        invariant
            j <= sorted@.len(),
            sv == chunk_views(sorted@),
            file_data@ == spec_concat_data(sv.take(j as int)),
        decreases sorted@.len() - j,
    {
        append_bytes(&mut file_data, sorted[j].data.as_slice());
        assert(sv[j as int] == sorted@[j as int]@);
        assert(sv.take(j + 1).drop_last() =~= sv.take(j as int));
        j = j + 1;
    }
    assert(sv.take(j as int) =~= sv);
    Ok(file_data)
}

/// Reassembles a file from the chunks collected from a chain.
pub fn decode_chunks(chunks: Vec<Chunk>) -> (r: Result<Vec<u8>, ChainDecodeError>)
    ensures
        bytes_result_view(r) == spec_decode_chunks(chunk_views(chunks@)),
{
    let ghost cs = chunk_views(chunks@);
    if chunks.len() == 0 {
        return Err(ChainDecodeError::NoChunks);
    }
    assert(cs[0] == chunks@[0]@);
    let total_chunks = chunks[0].total_chunks;
    if chunks.len() != total_chunks as usize {
        return Err(ChainDecodeError::MissingChunks { announced: total_chunks, found: chunks.len() });
    }
    let file_size: usize = match chunks[0].file_size {
        Some(size) => size as usize,
        None => return Err(ChainDecodeError::MissingFileSize),
    };
    let sorted = sort_chunks_by_index(chunks);
    let mut file_data = match check_and_join(&sorted, total_chunks) {
        Ok(d) => d,
        Err(e) => return Err(e),
    };
    if file_data.len() > file_size {
        file_data.truncate(file_size);
        assert(file_data@ =~= spec_concat_data(spec_sort_by_index(cs)).take(file_size as int));
    } else if file_data.len() < file_size {
        return Err(ChainDecodeError::IncompleteData { file_size, got: file_data.len() });
    } else {
        assert(file_data@ =~= spec_concat_data(spec_sort_by_index(cs)).take(file_size as int));
    }
    Ok(file_data)
}

} // verus!
