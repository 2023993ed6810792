//! Small byte-vector helpers used by the encoders and decoders.
use vstd::prelude::*;

verus! {

/// `n` zero bytes.
pub open spec fn zeros(n: nat) -> Seq<u8> {
    Seq::new(n, |i: int| 0u8)
}

/// The byte sequences of a sequence of byte vectors.
pub open spec fn byte_seqs(v: Seq<Vec<u8>>) -> Seq<Seq<u8>> {
    v.map_values(|b: Vec<u8>| b@)
}

/// Appends the bytes of `src` to `dst`.
pub fn append_bytes(dst: &mut Vec<u8>, src: &[u8])
    ensures
        final(dst)@ == old(dst)@ + src@,
{
    let ghost start = dst@;
    let mut i: usize = 0;
    while i < src.len()
        invariant
            i <= src@.len(),
            dst@ == start + src@.take(i as int),
        decreases src@.len() - i,
    {
        dst.push(src[i]);
        i = i + 1;
        assert(src@.take(i as int) == src@.take((i - 1) as int).push(src@[i - 1]));
    }
    assert(src@.take(src@.len() as int) == src@);
}

/// Appends `n` zero bytes to `dst`.
pub fn append_zeros(dst: &mut Vec<u8>, n: usize)
    ensures
        final(dst)@ == old(dst)@ + zeros(n as nat),
{
    let ghost start = dst@;
    let mut i: usize = 0;
    while i < n
        invariant
            i <= n,
            dst@ == start + zeros(i as nat),
        decreases n - i,
    {
        dst.push(0u8);
        i = i + 1;
        assert(zeros(i as nat) == zeros((i - 1) as nat).push(0u8));
    }
}

/// The bytes of `src` from `start` to `end`, copied.
pub fn copy_range(src: &[u8], start: usize, end: usize) -> (r: Vec<u8>)
    requires
        start <= end <= src@.len(),
    ensures
        r@ == src@.subrange(start as int, end as int),
{
    vstd::slice::slice_to_vec(&src[start..end])
}

/// Whether `d` starts with `p`.
pub open spec fn spec_starts_with(d: Seq<u8>, p: Seq<u8>) -> bool {
    d.len() >= p.len() && d.take(p.len() as int) == p
}

/// Whether `data` starts with `prefix`.
pub fn starts_with(data: &[u8], prefix: &[u8]) -> (r: bool)
    ensures
        r == spec_starts_with(data@, prefix@),
{
    if data.len() < prefix.len() {
        return false;
    }
    let mut i: usize = 0;
    while i < prefix.len()
        invariant
            i <= prefix@.len(),
            prefix@.len() <= data@.len(),
            forall|k: int| 0 <= k < i ==> data@[k] == prefix@[k],
        decreases prefix@.len() - i,
    {
        if data[i] != prefix[i] {
            assert(data@.take(prefix@.len() as int)[i as int] != prefix@[i as int]);
            return false;
        }
        i = i + 1;
    }
    assert(data@.take(prefix@.len() as int) =~= prefix@);
    true
}

} // verus!
