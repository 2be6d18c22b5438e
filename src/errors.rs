use vstd::prelude::*;

verus! {

/// Byte-level faults met while decoding a record.
#[derive(Debug, Clone, Copy, PartialEq, Eq, Structural)]
pub enum ParseError {
    /// Fewer fixed-size entries than the header announced.
    MissingRecord,
    /// A header field holds no `=` between its name and its value.
    MissingFieldSeparator,
    /// The `op` byte names no known record kind.
    InvalidOpCode,
    /// A read ran past the end of the bytes at hand.
    BufferTooSmall,
    /// The file ended where a length field was expected.
    UnexpectedEOF,
    /// A header holds a field that its record kind does not have.
    UnexpectedField,
    /// The `op` byte names another record kind than the one being decoded.
    UnexpectedOpCode,
    /// A header lacks a field that its record kind requires.
    MissingField,
    /// An index record of another version than 1.
    UnsupportedVersion,
}

/// Structural violations of a bag.
#[derive(Debug, Clone, Copy, PartialEq, Eq, Structural)]
pub enum BagDefect {
    /// No bag header record was found.
    MissingBagHeader,
    /// The number of chunk records differs from the bag header's count.
    ChunkCountMismatch,
    /// The number of chunk-info records differs from the bag header's count.
    ChunkInfoCountMismatch,
    /// The number of connection records differs from the bag header's count.
    ConnectionCountMismatch,
    /// A chunk has no chunk-info record, or more than one.
    ChunkInfoMismatch,
    /// Two connection records carry the same id.
    DuplicateConnection,
    /// An index record refers to a connection that the bag does not define.
    UnknownConnection,
    /// An index record comes before any chunk.
    IndexBeforeChunk,
    /// A message record stands outside of any chunk.
    MessageOutsideChunk,
    /// A chunk uses a compression other than `none` and `lz4`.
    UnsupportedCompression,
    /// A chunk's data lies past the end of the file.
    ChunkOutOfBounds,
    /// An index entry does not point at a well-formed message record.
    MessageNotFound,
}

/// What went wrong.
#[derive(Debug, Clone, Copy, PartialEq, Eq, Structural)]
pub enum ErrorKind {
    /// The file does not start with the v2.0 magic line.
    NotARosbag,
    /// The bag header's `index_pos` is zero.
    UnindexedBag,
    /// The bag's records are inconsistent.
    InvalidBag(BagDefect),
    /// A record could not be decoded.
    Parse(ParseError),
    /// An LZ4 chunk did not decompress to its declared size.
    Decompression,
    /// Messages were asked of a bag whose chunks were not loaded.
    UnsupportedMode,
}

/// The error type of every fallible operation of this crate.
#[derive(Debug, Clone, Copy, PartialEq, Eq, Structural)]
pub struct Error {
    pub kind: ErrorKind,
}

impl Error {
    pub fn new(kind: ErrorKind) -> (r: Error)
        ensures
            r.kind == kind,
    {
        Error { kind }
    }

    pub fn kind(&self) -> (r: &ErrorKind)
        ensures
            *r == self.kind,
    {
        &self.kind
    }

    pub fn parse(e: ParseError) -> (r: Error)
        ensures
            r == (Error { kind: ErrorKind::Parse(e) }),
    {
        Error { kind: ErrorKind::Parse(e) }
    }

    pub fn invalid(d: BagDefect) -> (r: Error)
        ensures
            r == (Error { kind: ErrorKind::InvalidBag(d) }),
    {
        Error { kind: ErrorKind::InvalidBag(d) }
    }
}

} // verus!
