//! A bag: its metadata and, when it was opened eagerly, the uncompressed
//! bodies of its chunks.
use vstd::prelude::*;

use crate::chunks::{chunk_body, spec_chunk_body};
use crate::errors::{BagDefect, Error, ErrorKind};
use crate::metadata::{BagMetadata, ChunkMetadata, ChunkView, MetadataView};
use crate::parsing::{le_u32, parse_le_u32_at};
use crate::records::{spec_message_header, MessageDataHeader};
use crate::walker::{defect, spec_open};

verus! {

/// Where the payload of the message record at `offset` of chunk body
/// `body` lies: it starts at the record's four-byte data length, which the
/// payload keeps, and ends with the data. `None` where no well-formed
/// message record stands there.
pub open spec fn message_span(body: Seq<u8>, offset: int) -> Option<(int, int)> {
    if offset < 0 || offset + 4 > body.len() {
        None
    } else if offset + 4 + le_u32(body, offset) > body.len() {
        None
    } else {
        let he = offset + 4 + le_u32(body, offset);
        if spec_message_header(body.subrange(offset + 4, he)) is Err {
            None
        } else if he + 4 > body.len() {
            None
        } else if he + 4 + le_u32(body, he) > body.len() {
            None
        } else {
            Some((he, he + 4 + le_u32(body, he)))
        }
    }
}

/// Finds the payload of the message record at `offset` of `body`.
pub fn locate_message(body: &[u8], offset: u32) -> (r: Option<(usize, usize)>)
    ensures
        r is Some <==> message_span(body@, offset as int) is Some,
        r matches Some((s, e)) ==> message_span(body@, offset as int) == Some((s as int, e as int)),
{
    let pos = offset as usize;
    if pos > body.len() || body.len() - pos < 4 {
        return None;
    }
    let header_len = match parse_le_u32_at(body, pos) {
        Ok(l) => l as usize,
        Err(_) => return None,
    };
    let hs = pos + 4;
    if body.len() - hs < header_len {
        return None;
    }
    let he = hs + header_len;
    let header = &body[hs..he];
    assert(header@ == body@.subrange(hs as int, he as int));
    if MessageDataHeader::from(header).is_err() {
        return None;
    }
    if body.len() - he < 4 {
        return None;
    }
    let data_len = match parse_le_u32_at(body, he) {
        Ok(l) => l as usize,
        Err(_) => return None,
    };
    if body.len() - (he + 4) < data_len {
        return None;
    }
    Some((he, he + 4 + data_len))
}

/// The raw bytes of the chunk `c` of the bag `b`, uncompressed.
pub open spec fn chunk_at(b: Seq<u8>, c: ChunkView) -> Result<Seq<u8>, Error> {
    if c.chunk_data_pos + c.compressed_size > b.len() {
        Err(defect(BagDefect::ChunkOutOfBounds))
    } else {
        spec_chunk_body(
            b.subrange(c.chunk_data_pos as int, c.chunk_data_pos + c.compressed_size),
            c.compression,
            c.uncompressed_size,
        )
    }
}

/// The uncompressed bodies of the chunks `cs`, loaded in order; the first
/// chunk that fails stops the loading.
pub open spec fn load_bodies(b: Seq<u8>, cs: Seq<ChunkView>) -> Result<Seq<Seq<u8>>, Error>
    decreases cs.len(),
{
    if cs.len() == 0 {
        Ok(Seq::empty())
    } else {
        match load_bodies(b, cs.drop_last()) {
            Err(e) => Err(e),
            Ok(bs) => match chunk_at(b, cs.last()) {
                Err(e) => Err(e),
                Ok(x) => Ok(bs.push(x)),
            },
        }
    }
}

/// A chunk that fails to load fails the loading of every longer list.
pub proof fn lemma_load_bodies_err(b: Seq<u8>, cs: Seq<ChunkView>, n: int)
    requires
        0 <= n <= cs.len(),
        load_bodies(b, cs.take(n)) is Err,
    ensures
        load_bodies(b, cs) == load_bodies(b, cs.take(n)),
    decreases cs.len(),
{
    if n == cs.len() {
        assert(cs.take(n) =~= cs);
    } else {
        assert(cs.drop_last().take(n) =~= cs.take(n));
        lemma_load_bodies_err(b, cs.drop_last(), n);
    }
}

/// Every index entry of `m` points at a well-formed message record of its
/// chunk body.
pub open spec fn all_located(m: MetadataView, bodies: Seq<Seq<u8>>) -> bool {
    forall|k: int|
        0 <= k < m.index.len() ==> message_span(
            bodies[(#[trigger] m.index[k]).chunk_index as int],
            m.index[k].offset as int,
        ) is Some
}

/// The chunk bodies `bodies` belong to the metadata `m`.
pub open spec fn bodies_fit(m: MetadataView, bodies: Seq<Seq<u8>>) -> bool {
    &&& bodies.len() == m.chunks.len()
    &&& forall|i: int|
        0 <= i < m.chunks.len() && m.chunks[i].compression == "lz4"@ ==> (#[trigger] bodies[i]).len()
            == m.chunks[i].uncompressed_size
    &&& all_located(m, bodies)
}

/// What opening the bag `b` eagerly gives: its metadata and its chunk
/// bodies.
pub open spec fn spec_open_eager(b: Seq<u8>) -> Result<(MetadataView, Seq<Seq<u8>>), Error> {
    match spec_open(b) {
        Err(e) => Err(e),
        Ok(m) => match load_bodies(b, m.chunks) {
            Err(e) => Err(e),
            Ok(bs) => if all_located(m, bs) {
                Ok((m, bs))
            } else {
                Err(defect(BagDefect::MessageNotFound))
            },
        },
    }
}

/// A bag, with the uncompressed bodies of its chunks when it was opened
/// eagerly.
#[derive(Debug)]
pub struct Bag {
    pub metadata: BagMetadata,
    /// The body of each chunk, in the order of the chunks; `None` for a bag
    /// opened for its metadata only.
    pub chunk_bytes: Option<Vec<Vec<u8>>>,
}

/// A bag whose chunks are loaded.
pub type DecompressedBag = Bag;

pub open spec fn bodies_view(bs: Vec<Vec<u8>>) -> Seq<Seq<u8>> {
    bs@.map_values(|v: Vec<u8>| v@)
}

impl Bag {
    pub open spec fn wf(&self) -> bool {
        &&& self.metadata.wf()
        &&& match self.chunk_bytes {
            Some(bs) => bodies_fit(self.metadata@, bodies_view(bs)),
            None => true,
        }
    }

    /// The chunk bodies, if they were loaded.
    pub open spec fn bodies(&self) -> Option<Seq<Seq<u8>>> {
        match self.chunk_bytes {
            Some(bs) => Some(bodies_view(bs)),
            None => None,
        }
    }

    /// Opens the bag whose bytes are `bytes` and decompresses all of its
    /// chunks.
    pub fn from_bytes(bytes: &[u8]) -> (r: Result<Bag, Error>)
        ensures
            match spec_open_eager(bytes@) {
                Ok((m, bs)) => r matches Ok(bag) && bag.metadata@ == m && bag.bodies() == Some(bs)
                    && bag.wf() && bag.metadata.num_bytes == bytes@.len(),
                Err(e) => r matches Err(x) && x == e,
            },
    {
        let metadata = match BagMetadata::from_bytes(bytes) {
            Ok(m) => m,
            Err(e) => return Err(e),
        };
        let bodies = match populate_chunk_bytes(&metadata.chunk_metadata, bytes) {
            Ok(bs) => bs,
            Err(e) => return Err(e),
        };
        if !locate_all(&metadata, &bodies) {
            return Err(Error::invalid(BagDefect::MessageNotFound));
        }
        Ok(Bag { metadata, chunk_bytes: Some(bodies) })
    }

    /// A bag for the metadata `metadata` alone: its messages cannot be read.
    pub fn from_metadata(metadata: BagMetadata) -> (r: Bag)
        requires
            metadata.wf(),
        ensures
            r.metadata == metadata,
            r.chunk_bytes is None,
            r.wf(),
    {
        Bag { metadata, chunk_bytes: None }
    }

    /// Opens the bag whose bytes are `bytes` for its metadata only.
    pub fn metadata_from_bytes(bytes: &[u8]) -> (r: Result<Bag, Error>)
        ensures
            match spec_open(bytes@) {
                Ok(m) => r matches Ok(bag) && bag.metadata@ == m && bag.chunk_bytes is None
                    && bag.wf() && bag.metadata.num_bytes == bytes@.len(),
                Err(e) => r matches Err(x) && x == e,
            },
    {
        match BagMetadata::from_bytes(bytes) {
            Ok(m) => Ok(Bag::from_metadata(m)),
            Err(e) => Err(e),
        }
    }
}

/// Reads the raw bytes of each chunk out of the bag's bytes and
/// decompresses them.
pub fn populate_chunk_bytes(chunks: &Vec<ChunkMetadata>, bag_bytes: &[u8]) -> (r: Result<Vec<Vec<u8>>, Error>)
    ensures
        match load_bodies(bag_bytes@, chunks@.map_values(|c: ChunkMetadata| c@)) {
            Ok(bs) => r matches Ok(v) && bodies_view(v) == bs && v@.len() == chunks@.len()
                && forall|i: int|
                0 <= i < chunks@.len() && chunks@[i]@.compression == "lz4"@ ==> (
                #[trigger] bs[i]).len() == chunks@[i].uncompressed_size,
            Err(e) => r matches Err(x) && x == e,
        },
{
    let ghost cs = chunks@.map_values(|c: ChunkMetadata| c@);
    let mut out: Vec<Vec<u8>> = Vec::with_capacity(chunks.len());
    let mut i: usize = 0;
    assert(cs.take(0) =~= Seq::<ChunkView>::empty());
    assert(bodies_view(out) =~= Seq::<Seq<u8>>::empty());
    while i < chunks.len()
        invariant
            cs == chunks@.map_values(|c: ChunkMetadata| c@),
            i <= chunks@.len(),
            load_bodies(bag_bytes@, cs.take(i as int)) == Ok::<Seq<Seq<u8>>, Error>(bodies_view(out)),
            forall|j: int|
                0 <= j < i && chunks@[j]@.compression == "lz4"@ ==> (
                #[trigger] bodies_view(out)[j]).len() == chunks@[j].uncompressed_size,
            bodies_view(out).len() == i,
        decreases chunks.len() - i,
    {
        let c = &chunks[i];
        assert(cs.take(i + 1).drop_last() =~= cs.take(i as int));
        assert(cs.take(i + 1).last() == c@);
        let start = c.chunk_data_pos;
        if start > bag_bytes.len() as u64 || (bag_bytes.len() as u64 - start) < c.compressed_size as u64 {
            proof {
                lemma_load_bodies_err(bag_bytes@, cs, i + 1);
            }
            return Err(Error::invalid(BagDefect::ChunkOutOfBounds));
        }
        let s = start as usize;
        let e = s + c.compressed_size as usize;
        let raw = &bag_bytes[s..e];
        assert(raw@ == bag_bytes@.subrange(s as int, e as int));
        let body = match chunk_body(raw, &c.compression, c.uncompressed_size) {
            Ok(b) => b,
            Err(err) => {
                proof {
                    lemma_load_bodies_err(bag_bytes@, cs, i + 1);
                }
                return Err(err);
            },
        };
        proof {
            reveal_strlit("none");
            reveal_strlit("lz4");
        }
        let ghost old_out = bodies_view(out);
        let ghost body_view = body@;
        out.push(body);
        assert(bodies_view(out) =~= old_out.push(body_view));
        proof {
            if c@.compression == "lz4"@ {
                assert("lz4"@.len() == 3);
                assert("none"@.len() == 4);
                assert(c@.compression != "none"@);
                assert(raw@.len() >= 19);
                assert(body_view.len() == c.uncompressed_size);
            }
            assert forall|j: int|
                0 <= j < i + 1 && chunks@[j]@.compression == "lz4"@ implies (
                #[trigger] bodies_view(out)[j]).len() == chunks@[j].uncompressed_size by {
                if j < i {
                    assert(bodies_view(out)[j] == old_out[j]);
                }
            }
        }
        i = i + 1;
    }
    assert(cs.take(chunks@.len() as int) =~= cs);
    Ok(out)
}

/// Whether every index entry points at a well-formed message record of its
/// chunk body.
fn locate_all(metadata: &BagMetadata, bodies: &Vec<Vec<u8>>) -> (r: bool)
    requires
        metadata.wf(),
        bodies@.len() == metadata.chunk_metadata@.len(),
    ensures
        r == all_located(metadata@, bodies_view(*bodies)),
{
    let mut k: usize = 0;
    while k < metadata.index_data.len()
        invariant
            metadata.wf(),
            bodies@.len() == metadata.chunk_metadata@.len(),
            k <= metadata.index_data@.len(),
            forall|j: int|
                0 <= j < k ==> message_span(
                    bodies_view(*bodies)[(#[trigger] metadata@.index[j]).chunk_index as int],
                    metadata@.index[j].offset as int,
                ) is Some,
        decreases metadata.index_data.len() - k,
    {
        let e = metadata.index_data[k];
        assert(metadata@.entry_is_placed(metadata@.index[k as int]));
        if locate_message(bodies[e.chunk_index].as_slice(), e.offset).is_none() {
            return false;
        }
        k = k + 1;
    }
    true
}

} // verus!
