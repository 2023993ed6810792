//! Splitting a file into chunks that ride in the OP_RETURN outputs of a chain
//! of transactions, and the amounts that carry the chain.
use vstd::prelude::*;
use crate::script::{op_return_script, spec_push};
use crate::utils::transaction::TX_FEE_SATS;
use crate::utils::bytes::{append_bytes, append_zeros, copy_range, zeros, byte_seqs};

verus! {

/// Maximum bytes per OP_RETURN (Bitcoin Knots default policy limit).
pub const MAX_OP_RETURN_SIZE: usize = 40;

/// Metadata of a chunk: tag, index, total.
pub const METADATA_SIZE: usize = 5;

/// Metadata of the first chunk: tag, index, total, file size.
pub const FIRST_CHUNK_METADATA_SIZE: usize = 7;

/// Maximum data bytes per chunk (after metadata).
pub const MAX_DATA_PER_CHUNK: usize = 35;

/// Maximum data bytes in the first chunk (after metadata).
pub const FIRST_CHUNK_MAX_DATA: usize = 33;

/// Minimum data bytes of a last chunk after the first; shorter ones are padded.
pub const MIN_LAST_CHUNK_SIZE: usize = 30;

/// Largest file that the chunk header's size field can hold.
pub const MAX_FILE_SIZE: usize = 65535;

/// Largest number of chunks that the chunk header's count field can hold.
pub const MAX_CHUNKS: usize = 255;

/// Amount for continuation outputs (in satoshis).
pub const CONTINUATION_AMOUNT: u64 = 10_000;

/// Position of continuation output in transaction outputs.
pub const CONTINUATION_OUTPUT_INDEX: u32 = 1;

/// The tag that opens every chunk written by [`Chunk::encode`].
pub const CHUNK_TAG: [u8; 3] = [0x49, 0x4d, 0x47];

/// The tag as a sequence: "IMG".
pub open spec fn spec_chunk_tag() -> Seq<u8> {
    seq![0x49u8, 0x4du8, 0x47u8]
}

/// One chunk of a file: its position, the number of chunks, the file size
/// (carried by the first chunk only), and its bytes.
#[derive(Debug)]
pub struct Chunk {
    pub index: u8,
    pub total_chunks: u8,
    pub file_size: Option<u16>,
    pub data: Vec<u8>,
}

/// A chunk as a mathematical value.
pub struct ChunkView {
    pub index: u8,
    pub total_chunks: u8,
    pub file_size: Option<u16>,
    pub data: Seq<u8>,
}

impl View for Chunk {
    type V = ChunkView;

    open spec fn view(&self) -> ChunkView {
        ChunkView {
            index: self.index,
            total_chunks: self.total_chunks,
            file_size: self.file_size,
            data: self.data@,
        }
    }
}

/// The views of a sequence of chunks.
pub open spec fn chunk_views(cs: Seq<Chunk>) -> Seq<ChunkView> {
    cs.map_values(|c: Chunk| c@)
}

/// The bytes of a chunk in an OP_RETURN: the tag, index, total, the file size
/// in little-endian order when present, then the data.
pub open spec fn spec_encode_chunk(c: ChunkView) -> Seq<u8> {
    spec_chunk_tag() + seq![c.index, c.total_chunks] + match c.file_size {
        Some(size) => seq![(size % 256) as u8, (size / 256) as u8],
        None => Seq::empty(),
    } + c.data
}

impl Chunk {
    /// Encodes the chunk into bytes ready for OP_RETURN.
    pub fn encode(&self) -> (r: Vec<u8>)
        ensures
            r@ == spec_encode_chunk(self@),
    {
        let mut encoded: Vec<u8> = Vec::new();
        append_bytes(&mut encoded, &CHUNK_TAG);
        encoded.push(self.index);
        encoded.push(self.total_chunks);
        match self.file_size {
            Some(size) => {
                encoded.push((size % 256) as u8);
                encoded.push((size / 256) as u8);
            },
            None => {},
        }
        append_bytes(&mut encoded, self.data.as_slice());
        assert(CHUNK_TAG@ == spec_chunk_tag());
        encoded
    }
}

/// Errors of chunking.
#[derive(Debug, Clone, Copy, PartialEq, Eq, Structural)]
pub enum ChunkingError {
    /// The file is larger than the size field can hold.
    FileTooLarge,
    /// The file needs this many chunks, more than the count field can hold.
    TooManyChunks(usize),
}

/// The number of chunks that a file of `total` bytes needs: one of up to 33
/// bytes, then chunks of up to 35 bytes.
pub open spec fn spec_chunk_count(total: nat) -> nat {
    if total <= FIRST_CHUNK_MAX_DATA {
        1
    } else {
        1 + ((total - FIRST_CHUNK_MAX_DATA) as nat + 34) / 35
    }
}

/// Where the data of chunk `k` (from 1 on) starts in the file.
pub open spec fn spec_chunk_start(k: int) -> int {
    FIRST_CHUNK_MAX_DATA + MAX_DATA_PER_CHUNK * (k - 1)
}

/// Where the data of chunk `k` (from 1 on) ends in a file of `total` bytes.
pub open spec fn spec_chunk_end(k: int, total: int) -> int {
    if spec_chunk_start(k) + MAX_DATA_PER_CHUNK <= total {
        spec_chunk_start(k) + MAX_DATA_PER_CHUNK
    } else {
        total
    }
}

/// The data of chunk `k` of `d`, split into `n` chunks: the first holds up to
/// 33 bytes, the others up to 35, and a last chunk after the first that holds
/// fewer than 30 bytes is padded with zeros to 30.
pub open spec fn spec_chunk_data(d: Seq<u8>, n: nat, k: int) -> Seq<u8> {
    if k == 0 {
        if d.len() <= FIRST_CHUNK_MAX_DATA {
            d
        } else {
            d.take(FIRST_CHUNK_MAX_DATA as int)
        }
    } else {
        let raw = d.subrange(spec_chunk_start(k), spec_chunk_end(k, d.len() as int));
        if k == n - 1 && raw.len() < MIN_LAST_CHUNK_SIZE {
            raw + zeros((MIN_LAST_CHUNK_SIZE - raw.len()) as nat)
        } else {
            raw
        }
    }
}

/// The chunks of `d`: chunk `k` has index `k`, the chunk count, the file size
/// in the first chunk only, and its data.
pub open spec fn spec_chunks(d: Seq<u8>) -> Seq<ChunkView> {
    let n = spec_chunk_count(d.len());
    Seq::new(
        n,
        |k: int|
            ChunkView {
                index: k as u8,
                total_chunks: n as u8,
                file_size: if k == 0 {
                    Some(d.len() as u16)
                } else {
                    None
                },
                data: spec_chunk_data(d, n, k),
            },
    )
}

/// What chunking `d` gives: an error for a file over 65535 bytes or one that
/// needs more than 255 chunks, else its chunks.
pub open spec fn spec_chunk_result(d: Seq<u8>) -> Result<Seq<ChunkView>, ChunkingError> {
    if d.len() > MAX_FILE_SIZE {
        Err(ChunkingError::FileTooLarge)
    } else if spec_chunk_count(d.len()) > MAX_CHUNKS {
        Err(ChunkingError::TooManyChunks(spec_chunk_count(d.len()) as usize))
    } else {
        Ok(spec_chunks(d))
    }
}

/// The view of a chunking result.
pub open spec fn chunk_result_view(r: Result<Vec<Chunk>, ChunkingError>) -> Result<
    Seq<ChunkView>,
    ChunkingError,
> {
    match r {
        Ok(cs) => Ok(chunk_views(cs@)),
        Err(e) => Err(e),
    }
}

/// Chunk `k` of a file of `total` bytes starts inside the file, and ends at
/// its end exactly when it is the last chunk.
pub proof fn lemma_chunk_bounds(total: nat, k: int)
    requires
        total > FIRST_CHUNK_MAX_DATA,
        1 <= k < spec_chunk_count(total),
    ensures
        spec_chunk_start(k) < total,
        (spec_chunk_start(k) + MAX_DATA_PER_CHUNK >= total) == (k == spec_chunk_count(total) - 1),
{
    let m = (total - FIRST_CHUNK_MAX_DATA) as int;
    let c = (m + 34) / 35;
    assert(35 * c <= m + 34 && m + 34 < 35 * c + 35) by (nonlinear_arith)
        requires
            c == (m + 34) / 35,
            m > 0,
    ;
}

/// Splits data into chunks suitable for OP_RETURN outputs.
pub fn chunk_data(data: &[u8]) -> (r: Result<Vec<Chunk>, ChunkingError>)
    ensures
        chunk_result_view(r) == spec_chunk_result(data@),
{
    let total_size = data.len();
    if total_size > MAX_FILE_SIZE {
        return Err(ChunkingError::FileTooLarge);
    }
    let first_data_len = if total_size < FIRST_CHUNK_MAX_DATA {
        total_size
    } else {
        FIRST_CHUNK_MAX_DATA
    };
    let remaining_size = total_size - first_data_len;
    let total_chunks_usize: usize = if remaining_size > 0 {
        1 + (remaining_size + (MAX_DATA_PER_CHUNK - 1)) / MAX_DATA_PER_CHUNK
    } else {
        1
    };
    assert(total_chunks_usize == spec_chunk_count(data@.len()));
    if total_chunks_usize > MAX_CHUNKS {
        return Err(ChunkingError::TooManyChunks(total_chunks_usize));
    }
    let total_chunks = total_chunks_usize as u8;
    let ghost n = spec_chunk_count(data@.len());
    let ghost expected = spec_chunks(data@);

    let mut chunks: Vec<Chunk> = Vec::new();
    chunks.push(
        Chunk {
            index: 0,
            total_chunks,
            file_size: Some(total_size as u16),
            data: copy_range(data, 0, first_data_len),
        },
    );
    assert(data@.subrange(0, first_data_len as int) == spec_chunk_data(data@, n, 0));
    assert(chunk_views(chunks@) == expected.take(1));

    let mut k: usize = 1;
    while k < total_chunks_usize
        invariant
            1 <= k <= total_chunks_usize,
            total_chunks_usize == n,
            n == spec_chunk_count(data@.len()),
            n <= MAX_CHUNKS,
            total_chunks == n,
            total_size == data@.len(),
            total_size <= MAX_FILE_SIZE,
            expected == spec_chunks(data@),
            chunk_views(chunks@) == expected.take(k as int),
        decreases total_chunks_usize - k,
    {
        let offset = FIRST_CHUNK_MAX_DATA + MAX_DATA_PER_CHUNK * (k - 1);
        assert(offset == spec_chunk_start(k as int));
        proof {
            lemma_chunk_bounds(total_size as nat, k as int);
        }
        let chunk_size = if total_size - offset < MAX_DATA_PER_CHUNK {
            total_size - offset
        } else {
            MAX_DATA_PER_CHUNK
        };
        let mut piece = copy_range(data, offset, offset + chunk_size);
        let is_last = offset + chunk_size >= total_size;
        assert(is_last == (k == n - 1));
        if is_last && piece.len() < MIN_LAST_CHUNK_SIZE {
            let padding_needed = MIN_LAST_CHUNK_SIZE - piece.len();
            append_zeros(&mut piece, padding_needed);
        }
        assert(piece@ == spec_chunk_data(data@, n, k as int));
        let chunk = Chunk { index: k as u8, total_chunks, file_size: None, data: piece };
        assert(chunk@ == expected[k as int]);
        let ghost before = chunks@;
        chunks.push(chunk);
        assert(chunk_views(chunks@) =~= chunk_views(before).push(chunk@));
        k = k + 1;
        assert(chunk_views(chunks@) =~= expected.take(k as int));
    }
    assert(expected.take(k as int) == expected);
    Ok(chunks)
}

/// The OP_RETURN script of each chunk of `d`, in order.
pub open spec fn spec_chunk_scripts(d: Seq<u8>) -> Seq<Seq<u8>> {
    spec_chunks(d).map_values(|c: ChunkView| seq![crate::script::OP_RETURN] + spec_push(spec_encode_chunk(c)))
}

/// The view of a result that holds scripts.
pub open spec fn scripts_result_view(r: Result<Vec<Vec<u8>>, ChunkingError>) -> Result<Seq<Seq<u8>>, ChunkingError> {
    match r {
        Ok(v) => Ok(byte_seqs(v@)),
        Err(e) => Err(e),
    }
}

/// Splits `data` into chunks and writes each into an OP_RETURN script, in
/// chain order: the outputs that the chained transactions will carry.
pub fn chunk_scripts(data: &[u8]) -> (r: Result<Vec<Vec<u8>>, ChunkingError>)
    ensures
        scripts_result_view(r) == match spec_chunk_result(data@) {
            Ok(_) => Ok(spec_chunk_scripts(data@)),
            Err(e) => Err(e),
        },
{
    let chunks = match chunk_data(data) {
        Ok(c) => c,
        Err(e) => return Err(e),
    };
    let ghost expected = spec_chunk_scripts(data@);
    let mut scripts: Vec<Vec<u8>> = Vec::new();
    let mut i: usize = 0;
    while i < chunks.len()
        invariant
            i <= chunks@.len(),
            chunk_views(chunks@) == spec_chunks(data@),
            expected == spec_chunk_scripts(data@),
            byte_seqs(scripts@) == expected.take(i as int),
            spec_chunk_result(data@) is Ok,
        decreases chunks@.len() - i,
    {
        let encoded = chunks[i].encode();
        assert(chunk_views(chunks@)[i as int] == chunks@[i as int]@);
        if i > 0 {
            proof {
                lemma_chunk_bounds(data@.len(), i as int);
            }
        }
        assert(chunks@[i as int].data@.len() <= MAX_DATA_PER_CHUNK);
        let script = op_return_script(encoded.as_slice());
        let ghost before = scripts@;
        scripts.push(script);
        assert(byte_seqs(scripts@) =~= byte_seqs(before).push(script@));
        i = i + 1;
        assert(byte_seqs(scripts@) =~= expected.take(i as int));
    }
    assert(expected.take(i as int) =~= expected);
    Ok(scripts)
}

/// Errors of planning the amounts of a chain.
#[derive(Debug, Clone, Copy, PartialEq, Eq, Structural)]
pub enum ChainPlanError {
    /// The funding output cannot pay the fee and the first continuation output.
    InsufficientFunds,
}

/// The amounts of a chain of transactions: the continuation output of the
/// first transaction (when there is a second), its change, and the amount of
/// the continuation output of each later transaction.
#[derive(Debug)]
pub struct ChainPlan {
    pub first_continuation: Option<u64>,
    pub first_change: u64,
    pub next_amounts: Vec<u64>,
}

/// The continuation output of the first of `n` transactions: 10000 satoshis,
/// or, where that is more, one fee for each transaction, so that each later
/// transaction pays its fee and the last still passes on one fee's worth.
pub open spec fn spec_first_continuation(n: nat) -> int {
    if n * TX_FEE_SATS > CONTINUATION_AMOUNT {
        n * TX_FEE_SATS
    } else {
        CONTINUATION_AMOUNT as int
    }
}

/// The continuation output of transaction `k` (from 1 on) of `n`: each
/// transaction passes on what it spent less its fee.
pub open spec fn spec_next_amount(n: nat, k: int) -> int {
    spec_first_continuation(n) - k * TX_FEE_SATS
}

/// What planning a chain of `n` transactions spending a funding output of
/// `input` satoshis gives.
pub open spec fn spec_plan_ok(n: nat, input: int, plan: ChainPlan) -> bool {
    let needed = TX_FEE_SATS + if n > 1 { spec_first_continuation(n) } else { 0 };
    &&& plan.first_continuation == if n > 1 { Some(spec_first_continuation(n) as u64) } else { None::<u64> }
    &&& plan.first_change == input - needed
    &&& plan.next_amounts@.len() == n - 1
    &&& forall|k: int| 1 <= k < n ==> #[trigger] plan.next_amounts@[k - 1] == spec_next_amount(n, k)
}

/// Plans the amounts of a chain of `num_chunks` transactions funded by an
/// output of `input_amount` satoshis: the first pays the fee, its change and,
/// when more follow, a continuation output; each later one spends the previous
/// continuation output and passes it on less the fee.
pub fn plan_chain(num_chunks: usize, input_amount: u64) -> (r: Result<ChainPlan, ChainPlanError>)
    requires
        num_chunks >= 1,
    ensures
        ({
            let needed = TX_FEE_SATS + if num_chunks > 1 { spec_first_continuation(num_chunks as nat) } else { 0 };
            &&& input_amount < needed ==> r == Err::<ChainPlan, ChainPlanError>(ChainPlanError::InsufficientFunds)
            &&& input_amount >= needed ==> (r matches Ok(plan) && spec_plan_ok(
                num_chunks as nat,
                input_amount as int,
                plan,
            ))
        }),
{
    let later: u64 = match (num_chunks as u64).checked_mul(TX_FEE_SATS) {
        Some(v) => v,
        None => return Err(ChainPlanError::InsufficientFunds),
    };
    let first: u64 = if later > CONTINUATION_AMOUNT {
        later
    } else {
        CONTINUATION_AMOUNT
    };
    let has_continuation = num_chunks > 1;
    let needed: u64 = if has_continuation {
        match TX_FEE_SATS.checked_add(first) {
            Some(v) => v,
            None => return Err(ChainPlanError::InsufficientFunds),
        }
    } else {
        TX_FEE_SATS
    };
    if input_amount < needed {
        return Err(ChainPlanError::InsufficientFunds);
    }
    let first_change = input_amount - needed;
    let mut next_amounts: Vec<u64> = Vec::new();
    let mut amount: u64 = first;
    let mut k: usize = 1;
    while k < num_chunks
        invariant
            1 <= k <= num_chunks,
            later == num_chunks * TX_FEE_SATS,
            first == spec_first_continuation(num_chunks as nat),
            first >= (num_chunks - 1) * TX_FEE_SATS,
            amount == first - (k - 1) * TX_FEE_SATS,
            next_amounts@.len() == k - 1,
            forall|j: int| 1 <= j < k ==> #[trigger] next_amounts@[j - 1] == spec_next_amount(num_chunks as nat, j),
        decreases num_chunks - k,
    {
        amount = amount - TX_FEE_SATS;
        next_amounts.push(amount);
        k = k + 1;
    }
    Ok(
        ChainPlan {
            first_continuation: if has_continuation {
                Some(first)
            } else {
                None
            },
            first_change,
            next_amounts,
        },
    )
}

} // verus!
