//! Splitting a file into image chunks of up to 75 bytes for OP_RETURN outputs.
use vstd::prelude::*;
use crate::utils::bytes::{append_bytes, byte_seqs, copy_range};
use crate::script::{op_return_script, spec_push, OP_RETURN};
use crate::techniques::chained_op_return::encode::ChunkView;

verus! {

/// Maximum bytes per OP_RETURN (Bitcoin Core default policy limit).
pub const MAX_OP_RETURN_SIZE: usize = 80;

/// Metadata prefix to identify chunked data: "IMG" + chunk index + total chunks.
pub const METADATA_SIZE: usize = 5;

/// Metadata of a first chunk that carries a file size.
pub const FIRST_CHUNK_METADATA_SIZE: usize = 7;

/// Maximum data bytes per chunk (after metadata).
pub const MAX_DATA_PER_CHUNK: usize = 75;

/// The tag of an image chunk: "IMG".
pub const IMAGE_TAG: [u8; 3] = [0x49, 0x4d, 0x47];

/// One chunk of a file: its index, the number of chunks, and its bytes.
#[derive(Debug)]
pub struct ImageChunk {
    pub index: u8,
    pub total_chunks: u8,
    pub data: Vec<u8>,
}

/// The bytes of an image chunk: "IMG", index, total, data.
pub open spec fn spec_encode_image_chunk(index: u8, total_chunks: u8, data: Seq<u8>) -> Seq<u8> {
    seq![0x49u8, 0x4du8, 0x47u8, index, total_chunks] + data
}

impl ImageChunk {
    /// Encodes the chunk into bytes ready for OP_RETURN.
    /// Format: "IMG" + index + total + data.
    pub fn encode(&self) -> (r: Vec<u8>)
        ensures
            r@ == spec_encode_image_chunk(self.index, self.total_chunks, self.data@),
    {
        let mut encoded: Vec<u8> = Vec::new();
        append_bytes(&mut encoded, &IMAGE_TAG);
        encoded.push(self.index);
        encoded.push(self.total_chunks);
        append_bytes(&mut encoded, self.data.as_slice());
        assert(encoded@ =~= spec_encode_image_chunk(self.index, self.total_chunks, self.data@));
        encoded
    }
}

/// Errors of chunking a file.
#[derive(Debug, Clone, Copy, PartialEq, Eq, Structural)]
pub enum ImageChunkError {
    /// The chunk count, kept to one byte, is zero: the file is empty, or it
    /// needs a multiple of 256 chunks.
    FileEmpty,
}

/// The number of 75-byte chunks that `len` bytes need.
pub open spec fn spec_image_chunk_count(len: nat) -> nat {
    (len + 74) / 75
}

/// Where chunk `i` of a file of `len` bytes ends.
pub open spec fn spec_image_chunk_end(i: int, len: int) -> int {
    if 75 * i + 75 <= len {
        75 * i + 75
    } else {
        len
    }
}

/// The chunks of `d`: chunk `i` has index `i` and the chunk count, both kept
/// to one byte (the remainder by 256), no file size, and the bytes from `75 * i`
/// on, at most 75.
pub open spec fn spec_image_chunks(d: Seq<u8>) -> Seq<ChunkView> {
    let n = spec_image_chunk_count(d.len());
    Seq::new(
        n,
        |i: int|
            ChunkView {
                index: (i % 256) as u8,
                total_chunks: (n % 256) as u8,
                file_size: None,
                data: d.subrange(75 * i, spec_image_chunk_end(i, d.len() as int)),
            },
    )
}

impl ImageChunk {
    /// The chunk as a chained chunk view, which carries no file size.
    pub open spec fn view_chunk(&self) -> ChunkView {
        ChunkView { index: self.index, total_chunks: self.total_chunks, file_size: None, data: self.data@ }
    }
}

/// The chunk views of image chunks.
pub open spec fn image_chunk_views(cs: Seq<ImageChunk>) -> Seq<ChunkView> {
    cs.map_values(|c: ImageChunk| c.view_chunk())
}

/// What chunking `d` gives: an error when the chunk count, kept to one byte,
/// is zero, else its chunks.
pub open spec fn spec_image_chunk_result(d: Seq<u8>) -> Result<Seq<ChunkView>, ImageChunkError> {
    if spec_image_chunk_count(d.len()) % 256 == 0 {
        Err(ImageChunkError::FileEmpty)
    } else {
        Ok(spec_image_chunks(d))
    }
}

/// The view of an image chunking result.
pub open spec fn image_chunk_result_view(r: Result<Vec<ImageChunk>, ImageChunkError>) -> Result<
    Seq<ChunkView>,
    ImageChunkError,
> {
    match r {
        Ok(cs) => Ok(image_chunk_views(cs@)),
        Err(e) => Err(e),
    }
}

/// Splits file data into chunks suitable for OP_RETURN outputs: chunks of 75
/// bytes, the last possibly shorter, each with its index and the chunk count,
/// both kept to one byte.
pub fn chunk_image_data(data: &[u8]) -> (r: Result<Vec<ImageChunk>, ImageChunkError>)
    ensures
        image_chunk_result_view(r) == spec_image_chunk_result(data@),
{
    let total_size = data.len();
    let count = total_size / MAX_DATA_PER_CHUNK + if total_size % MAX_DATA_PER_CHUNK == 0 {
        0
    } else {
        1
    };
    assert(count == spec_image_chunk_count(data@.len()));
    let total_chunks = (count % 256) as u8;
    if total_chunks == 0 {
        return Err(ImageChunkError::FileEmpty);
    }
    let mut chunks: Vec<ImageChunk> = Vec::new();
    let mut i: usize = 0;
    while i < count
        invariant
            i <= count,
            count == spec_image_chunk_count(data@.len()),
            total_size == data@.len(),
            total_chunks == (count % 256) as u8,
            chunks@.len() == i,
            forall|k: int| 0 <= k < i ==> (#[trigger] chunks@[k]).view_chunk() == spec_image_chunks(data@)[k],
        decreases count - i,
    {
        assert(75 * i < total_size);
        let start = MAX_DATA_PER_CHUNK * i;
        let end = if total_size - start < MAX_DATA_PER_CHUNK {
            total_size
        } else {
            start + MAX_DATA_PER_CHUNK
        };
        let chunk = ImageChunk { index: (i % 256) as u8, total_chunks, data: copy_range(data, start, end) };
        chunks.push(chunk);
        i = i + 1;
    }
    assert(image_chunk_views(chunks@) =~= spec_image_chunks(data@));
    Ok(chunks)
}


/// The OP_RETURN script of each image chunk of `d`, in chain order.
pub open spec fn spec_image_chunk_scripts(d: Seq<u8>) -> Seq<Seq<u8>> {
    spec_image_chunks(d).map_values(
        |c: ChunkView| seq![OP_RETURN] + spec_push(spec_encode_image_chunk(c.index, c.total_chunks, c.data)),
    )
}

/// Splits `data` into image chunks and writes each into an OP_RETURN script,
/// in chain order: the outputs that the chained transactions will carry.
pub fn image_chunk_scripts(data: &[u8]) -> (r: Result<Vec<Vec<u8>>, ImageChunkError>)
    ensures
        match r {
            Ok(v) => spec_image_chunk_result(data@) is Ok && byte_seqs(v@) == spec_image_chunk_scripts(data@),
            Err(e) => spec_image_chunk_result(data@) == Err::<Seq<ChunkView>, ImageChunkError>(e),
        },
{
    let chunks = match chunk_image_data(data) {
        Ok(c) => c,
        Err(e) => return Err(e),
    };
    let ghost expected = spec_image_chunk_scripts(data@);
    let mut scripts: Vec<Vec<u8>> = Vec::new();
    let mut i: usize = 0;
    while i < chunks.len()
        invariant
            i <= chunks@.len(),
            image_chunk_views(chunks@) == spec_image_chunks(data@),
            expected == spec_image_chunk_scripts(data@),
            byte_seqs(scripts@) == expected.take(i as int),
        decreases chunks@.len() - i,
    {
        let encoded = chunks[i].encode();
        assert(image_chunk_views(chunks@)[i as int] == chunks@[i as int].view_chunk());
        assert(chunks@[i as int].data@.len() <= 75);
        let script = op_return_script(encoded.as_slice());
        let ghost before = scripts@;
        scripts.push(script);
        assert(byte_seqs(scripts@) =~= byte_seqs(before).push(script@));
        i = i + 1;
        assert(byte_seqs(scripts@) =~= expected.take(i as int));
    }
    assert(expected.take(i as int) =~= expected);
    Ok(scripts)
}

} // verus!
