//! Loading chunk bodies: taking a chunk's bytes out of the file and
//! decompressing them.
use vstd::prelude::*;

use crate::errors::{BagDefect, Error, ErrorKind};
use crate::parsing::slice_to_vec;

verus! {

/// The error of lz4_flex's block decoder, carried as an opaque value.
#[verifier::external_type_specification]
#[verifier::external_body]
pub struct ExDecompressError(lz4_flex::block::DecompressError);

/// What an LZ4 block decodes to when at most `capacity` bytes of output
/// are allowed; `None` where the block is malformed or needs more room.
pub uninterp spec fn lz4_block_decoded(block: Seq<u8>, capacity: nat) -> Option<Seq<u8>>;

/// Relies on `lz4_flex::decompress` (raw block format). With the crate's
/// default features decoding is bounds-checked: a block that needs more
/// than `capacity` bytes, or is malformed, gives an error rather than a
/// panic, and the output never exceeds `capacity`.
#[verifier::external_body]
fn lz4_decompress(block: &[u8], capacity: usize) -> (r: Result<Vec<u8>, lz4_flex::block::DecompressError>)
    ensures
        match lz4_block_decoded(block@, capacity as nat) {
            Some(d) => r matches Ok(v) && v@ == d,
            None => r is Err,
        },
        r matches Ok(v) ==> v@.len() <= capacity,
{
    lz4_flex::decompress(block, capacity)
}

/// Bytes of framing that precede the LZ4 block of a chunk.
pub const LZ4_PREAMBLE: usize = 11;

/// Bytes of framing that follow the LZ4 block of a chunk.
pub const LZ4_TRAILER: usize = 8;

pub open spec fn decompression_error() -> Error {
    Error { kind: ErrorKind::Decompression }
}

/// The body of an LZ4 chunk, from what its block decoded to: it must be
/// exactly `uncompressed_size` bytes long.
pub open spec fn spec_accept_decoded(decoded: Option<Seq<u8>>, uncompressed_size: u32) -> Result<Seq<u8>, Error> {
    match decoded {
        Some(d) => if d.len() == uncompressed_size {
            Ok(d)
        } else {
            Err(decompression_error())
        },
        None => Err(decompression_error()),
    }
}

/// The uncompressed body of a chunk whose raw bytes are `raw`.
pub open spec fn spec_chunk_body(raw: Seq<u8>, compression: Seq<char>, uncompressed_size: u32) -> Result<Seq<u8>, Error> {
    if compression == "none"@ {
        Ok(raw)
    } else if compression == "lz4"@ {
        if raw.len() < LZ4_PREAMBLE + LZ4_TRAILER {
            Err(decompression_error())
        } else {
            spec_accept_decoded(
                lz4_block_decoded(
                    raw.subrange(LZ4_PREAMBLE as int, raw.len() - LZ4_TRAILER),
                    uncompressed_size as nat,
                ),
                uncompressed_size,
            )
        }
    } else {
        Err(Error { kind: ErrorKind::InvalidBag(BagDefect::UnsupportedCompression) })
    }
}

/// Takes the body of an LZ4 chunk from what its block decoded to.
pub fn accept_decoded(decoded: Option<Vec<u8>>, uncompressed_size: u32) -> (r: Result<Vec<u8>, Error>)
    ensures
        match spec_accept_decoded(
            match decoded {
                Some(v) => Some(v@),
                None => None,
            },
            uncompressed_size,
        ) {
            Ok(d) => r matches Ok(v) && v@ == d,
            Err(e) => r matches Err(x) && x == e,
        },
{
    match decoded {
        Some(v) => if v.len() == uncompressed_size as usize {
            Ok(v)
        } else {
            Err(Error::new(ErrorKind::Decompression))
        },
        None => Err(Error::new(ErrorKind::Decompression)),
    }
}

/// Decompresses the raw bytes of a chunk according to its compression.
pub fn chunk_body(raw: &[u8], compression: &String, uncompressed_size: u32) -> (r: Result<Vec<u8>, Error>)
    ensures
        match spec_chunk_body(raw@, compression@, uncompressed_size) {
            Ok(d) => r matches Ok(v) && v@ == d,
            Err(e) => r matches Err(x) && x == e,
        },
{
    let none = "none".to_owned();
    let lz4 = "lz4".to_owned();
    if *compression == none {
        Ok(slice_to_vec(raw, 0, raw.len()))
    } else if *compression == lz4 {
        if raw.len() < LZ4_PREAMBLE + LZ4_TRAILER {
            return Err(Error::new(ErrorKind::Decompression));
        }
        let block = &raw[LZ4_PREAMBLE..raw.len() - LZ4_TRAILER];
        assert(block@ == raw@.subrange(LZ4_PREAMBLE as int, raw@.len() - LZ4_TRAILER));
        let decoded = match lz4_decompress(block, uncompressed_size as usize) {
            Ok(v) => Some(v),
            Err(_) => None,
        };
        accept_decoded(decoded, uncompressed_size)
    } else {
        Err(Error::invalid(BagDefect::UnsupportedCompression))
    }
}

} // verus!
