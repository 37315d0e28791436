use vstd::prelude::*;

verus! {

/// The failure kinds the store and its streams can report. `NotFound` is the
/// failure of resolving a named reference, `Io` any backing-store read or
/// enumeration failure, `MissingChecksum` a store whose record of a file's
/// content identity is absent, and `Cancelled` a cooperative abort signalled
/// through the cancellation context.
#[derive(Clone, Copy, PartialEq, Eq, Structural, Debug)]
pub enum ErrorKind {
    NotFound,
    Io,
    MissingChecksum,
    Cancelled,
}

/// What one read stream delivered: its chunks in the order they were read,
/// and how it ended — `None` for a clean end of stream, `Some(kind)` for a
/// failure partway (the chunks before the failure were already delivered).
pub struct ByteStream {
    pub chunks: Vec<Vec<u8>>,
    pub end: Option<ErrorKind>,
}

/// The concatenation of a sequence of chunks.
pub open spec fn chunks_bytes(s: Seq<Vec<u8>>) -> Seq<u8>
    decreases s,
{
    if s.len() == 0 {
        Seq::empty()
    } else {
        s[0]@ + chunks_bytes(s.drop_first())
    }
}

/// Appending one chunk appends its bytes to the concatenation.
pub proof fn lemma_chunks_bytes_push(s: Seq<Vec<u8>>, c: Vec<u8>)
    ensures
        chunks_bytes(s.push(c)) =~= chunks_bytes(s) + c@,
    decreases s,
{
    reveal_with_fuel(chunks_bytes, 2);
    if s.len() == 0 {
        assert(s.push(c)[0] == c);
        assert(s.push(c).drop_first() =~= Seq::<Vec<u8>>::empty());
    } else {
        assert(s.push(c)[0] == s[0]);
        assert(s.push(c).drop_first() =~= s.drop_first().push(c));
        lemma_chunks_bytes_push(s.drop_first(), c);
    }
}

impl ByteStream {
    /// The full content this stream delivered.
    pub open spec fn content(self) -> Seq<u8> {
        chunks_bytes(self.chunks@)
    }
}

/// What the store delivered for one child of a directory, as enumeration
/// classified it. A regular file carries the outcome of resolving its content
/// identity and opening its read stream: the stream, or the failure that
/// stood in its place. A subdirectory carries the enumeration of its own
/// children.
pub enum ChildEntry {
    Subdir(String, DirNode),
    File(String, Result<ByteStream, ErrorKind>),
    Symlink(String),
    Other(String),
}

/// What enumerating one directory delivered: its children in discovery
/// order, and how the enumeration ended — `None` when it ran to completion,
/// `Some(kind)` when it failed after delivering `entries`.
pub struct DirNode {
    pub entries: Vec<ChildEntry>,
    pub end: Option<ErrorKind>,
}

} // verus!
