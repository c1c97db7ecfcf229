use vstd::prelude::*;

verus! {

/// Size in bytes of one audio frame buffer as read from the decode pipeline.
pub const CHUNK: usize = 4096;

/// One fixed-size read buffer of raw PCM bytes.
pub type Chunk = [u8; 4096];

/// Dimensions of the fixed read buffer used by the playback loop, and a
/// zeroed buffer to start reading into.
pub trait ChunkLen {
    fn len() -> (r: usize)
        ensures
            r == CHUNK,
    {
        CHUNK
    }

    fn new() -> (r: Chunk)
        ensures
            forall|i: int| 0 <= i < 4096 ==> r@[i] == 0,
    {
        let r: Chunk = vstd::array::array_fill_for_copy_types(0);
        proof {
            broadcast use vstd::array::axiom_spec_array_fill_for_copy_type;
        }
        r
    }
}

impl ChunkLen for Chunk {
}

/// Copy the first `len` bytes of a read buffer into an owned frame,
/// exactly as they were produced by the decode pipeline.
pub fn frame_chunk(buf: &[u8], len: usize) -> (r: Vec<u8>)
    requires
        len <= buf@.len(),
    ensures
        r@ == buf@.subrange(0, len as int),
{
    let mut v: Vec<u8> = Vec::new();
    let mut i: usize = 0;
    while i < len
        invariant
            i <= len <= buf@.len(),
            v@ == buf@.subrange(0, i as int),
        decreases len - i,
    {
        v.push(buf[i]);
        i = i + 1;
    }
    assert(v@ =~= buf@.subrange(0, len as int));
    v
}

} // verus!
