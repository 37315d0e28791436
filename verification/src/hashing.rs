use vstd::prelude::*;

use crate::store::{chunks_bytes, ByteStream, ErrorKind};
use sha2::Digest;

verus! {

/// An incremental SHA-256 computation. The wrapped state is the outside
/// crate's; the functions below are the only way to touch it.
#[verifier::external_body]
pub struct Sha256Stream {
    inner: sha2::Sha256,
}

/// The SHA-256 digest of a byte sequence. The algorithm is not written out
/// here; the name stands for the function the outside crate computes, which
/// depends on the input bytes alone.
pub uninterp spec fn sha256_of(bytes: Seq<u8>) -> Seq<u8>;

/// The bytes an incremental SHA-256 computation has absorbed so far.
pub uninterp spec fn absorbed(h: Sha256Stream) -> Seq<u8>;

/// Relies on sha2::Sha256::new: a fresh digest state that has absorbed
/// nothing.
#[verifier::external_body]
pub fn sha256_new() -> (h: Sha256Stream)
    ensures
        absorbed(h) == Seq::<u8>::empty(),
{
    Sha256Stream { inner: sha2::Sha256::new() }
}

/// Relies on sha2::Sha256::update: feeding more bytes appends them to what
/// the state has absorbed.
#[verifier::external_body]
pub fn sha256_update(h: &mut Sha256Stream, chunk: &[u8])
    ensures
        absorbed(*final(h)) == absorbed(*old(h)) + chunk@,
{
    h.inner.update(chunk);
}

/// Relies on sha2::Sha256::finalize: the finished digest is the SHA-256 of
/// all absorbed bytes, 32 bytes long.
#[verifier::external_body]
pub fn sha256_finish(h: Sha256Stream) -> (r: Vec<u8>)
    ensures
        r@ == sha256_of(absorbed(h)),
        r@.len() == 32,
{
    h.inner.finalize().to_vec()
}

/// Digest one file's read stream incrementally, chunk by chunk. A stream
/// that ended cleanly yields the SHA-256 digest of its full content; one
/// that failed partway yields that failure instead, and the partially
/// absorbed bytes are discarded.
pub fn hash_stream(stream: &ByteStream) -> (r: Result<Vec<u8>, ErrorKind>)
    ensures
        stream.end is None ==> (r matches Ok(d) && d@ == sha256_of(stream.content())
            && d@.len() == 32),
        stream.end matches Some(k) ==> r == Err::<Vec<u8>, ErrorKind>(k),
{
    let mut h = sha256_new();
    let mut i: usize = 0;
    while i < stream.chunks.len()
        invariant
            i <= stream.chunks.len(),
            absorbed(h) == chunks_bytes(stream.chunks@.subrange(0, i as int)),
        decreases stream.chunks.len() - i,
    {
        proof {
            crate::store::lemma_chunks_bytes_push(
                stream.chunks@.subrange(0, i as int),
                stream.chunks@[i as int],
            );
            assert(stream.chunks@.subrange(0, i as int).push(stream.chunks@[i as int])
                =~= stream.chunks@.subrange(0, i + 1 as int));
        }
        sha256_update(&mut h, stream.chunks[i].as_slice());
        i += 1;
    }
    proof {
        assert(stream.chunks@.subrange(0, stream.chunks@.len() as int) =~= stream.chunks@);
    }
    match stream.end {
        None => Ok(sha256_finish(h)),
        Some(k) => Err(k),
    }
}

} // verus!
