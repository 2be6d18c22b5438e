//! Walks the records of a bag once, from the magic line to the end of the
//! file, and builds its metadata tables. Chunk bodies are skipped.
use vstd::prelude::*;

use crate::errors::{BagDefect, Error, ErrorKind, ParseError};
use crate::fields::{name, utf8_lossy};
use crate::metadata::{BagMetadata, ChunkMetadata, ChunkView, ConnectionView, MetadataView};
use crate::parsing::{get_lengthed_bytes, le_u32, lengthed_span, parse_le_u32_at};
use crate::records::{
    read_header_op, spec_bag_header, spec_chunk_header, spec_chunk_info_header,
    spec_connection_data, spec_connection_header, spec_header_op, spec_index_header, BagHeader,
    ChunkHeader, ChunkInfoData, ChunkInfoHeader, ConnectionData, ConnectionFields,
    ConnectionHeader, IndexData, IndexDataHeader, OpCode,
};

verus! {

pub open spec fn perr(e: ParseError) -> Error {
    Error { kind: ErrorKind::Parse(e) }
}

pub open spec fn defect(d: BagDefect) -> Error {
    Error { kind: ErrorKind::InvalidBag(d) }
}

/// The first line of every v2.0 bag: `#ROSBAG V2.0` and a newline.
pub open spec fn magic() -> Seq<u8> {
    name("#ROSBAG V2.0\n")
}

pub open spec fn starts_with_magic(b: Seq<u8>) -> bool {
    b.len() >= magic().len() && b.subrange(0, magic().len() as int) == magic()
}

/// A chunk header as the walk records it.
pub struct ChunkSpec {
    pub pos: u64,
    pub data_pos: u64,
    pub compressed_size: u32,
    pub compression: Seq<char>,
    pub uncompressed_size: u32,
}

impl View for ChunkHeader {
    type V = ChunkSpec;

    open spec fn view(&self) -> ChunkSpec {
        ChunkSpec {
            pos: self.chunk_header_pos,
            data_pos: self.chunk_data_pos,
            compressed_size: self.compressed_size,
            compression: self.compression@,
            uncompressed_size: self.uncompressed_size,
        }
    }
}

/// A chunk-info record: its header and its entries.
pub struct ChunkInfo {
    pub header: ChunkInfoHeader,
    pub data: Vec<ChunkInfoData>,
}

impl View for ChunkInfo {
    type V = (ChunkInfoHeader, Seq<ChunkInfoData>);

    open spec fn view(&self) -> (ChunkInfoHeader, Seq<ChunkInfoData>) {
        (self.header, self.data@)
    }
}

/// What the walk has gathered so far.
pub struct WalkState {
    pub header: Option<BagHeader>,
    pub chunks: Seq<ChunkSpec>,
    pub infos: Seq<(ChunkInfoHeader, Seq<ChunkInfoData>)>,
    pub conns: Seq<ConnectionView>,
    pub index: Seq<IndexData>,
    /// The connection of each index record.
    pub index_conns: Seq<u32>,
}

pub open spec fn empty_walk() -> WalkState {
    WalkState {
        header: None,
        chunks: Seq::empty(),
        infos: Seq::empty(),
        conns: Seq::empty(),
        index: Seq::empty(),
        index_conns: Seq::empty(),
    }
}

/// The eight-byte entries of chunk-info data; trailing bytes are ignored.
pub open spec fn info_entries(d: Seq<u8>) -> Seq<ChunkInfoData> {
    Seq::new(d.len() / 8, |k: int| ChunkInfoData::at(d, 8 * k))
}

/// The twelve-byte entries of index data; trailing bytes are ignored.
pub open spec fn index_entries(d: Seq<u8>, pos: u64, chunk_index: usize, conn: u32) -> Seq<IndexData> {
    Seq::new(d.len() / 12, |k: int| IndexData::at(d, 12 * k, pos, chunk_index, conn))
}

pub open spec fn conn_view(id: u32, topic: Seq<u8>, d: ConnectionFields) -> ConnectionView {
    ConnectionView {
        connection_id: id,
        topic: utf8_lossy(topic),
        data_type: utf8_lossy(d.data_type),
        md5sum: utf8_lossy(d.md5sum),
        message_definition: utf8_lossy(d.message_definition),
        caller_id: match d.caller_id {
            Some(c) => Some(utf8_lossy(c)),
            None => None,
        },
        latching: d.latching,
    }
}

/// A bag header record whose header is `h` and whose data length stands at
/// `after`; the position past its data.
pub open spec fn bag_header_record(b: Seq<u8>, h: Seq<u8>, after: int) -> Result<(BagHeader, int), Error> {
    match spec_bag_header(h) {
        Err(e) => Err(perr(e)),
        Ok(bh) => if bh.index_pos == 0 {
            Err(Error { kind: ErrorKind::UnindexedBag })
        } else if after + 4 > b.len() {
            Err(perr(ParseError::UnexpectedEOF))
        } else {
            Ok((bh, after + 4 + le_u32(b, after)))
        },
    }
}

/// A chunk record that starts at `pos`; its body is skipped.
pub open spec fn chunk_record(b: Seq<u8>, pos: int, h: Seq<u8>, after: int) -> Result<(ChunkSpec, int), Error> {
    if after + 4 > b.len() {
        Err(perr(ParseError::UnexpectedEOF))
    } else {
        match spec_chunk_header(h) {
            Err(e) => Err(perr(e)),
            Ok((c, size)) => Ok(
                (
                    ChunkSpec {
                        pos: pos as u64,
                        data_pos: (after + 4) as u64,
                        compressed_size: le_u32(b, after),
                        compression: utf8_lossy(c),
                        uncompressed_size: size,
                    },
                    after + 4 + le_u32(b, after),
                ),
            ),
        }
    }
}

pub open spec fn connection_record(b: Seq<u8>, h: Seq<u8>, after: int) -> Result<(ConnectionView, int), Error> {
    match spec_connection_header(h) {
        Err(e) => Err(perr(e)),
        Ok((id, topic)) => match lengthed_span(b, after) {
            None => Err(perr(ParseError::BufferTooSmall)),
            Some((s, e)) => match spec_connection_data(b.subrange(s, e)) {
                Err(x) => Err(perr(x)),
                Ok(d) => Ok((conn_view(id, topic, d), e)),
            },
        },
    }
}

pub open spec fn chunk_info_record(b: Seq<u8>, h: Seq<u8>, after: int) -> Result<((ChunkInfoHeader, Seq<ChunkInfoData>), int), Error> {
    match spec_chunk_info_header(h) {
        Err(e) => Err(perr(e)),
        Ok(ci) => match lengthed_span(b, after) {
            None => Err(perr(ParseError::BufferTooSmall)),
            Some((s, e)) => if b.subrange(s, e).len() / 8 != ci.connection_count {
                Err(perr(ParseError::MissingRecord))
            } else {
                Ok(((ci, info_entries(b.subrange(s, e))), e))
            },
        },
    }
}

/// An index record that belongs to the chunk at `pos`, numbered `chunk_index`.
pub open spec fn index_record(b: Seq<u8>, h: Seq<u8>, after: int, pos: u64, chunk_index: usize) -> Result<((u32, Seq<IndexData>), int), Error> {
    match spec_index_header(h) {
        Err(e) => Err(perr(e)),
        Ok(ih) => match lengthed_span(b, after) {
            None => Err(perr(ParseError::BufferTooSmall)),
            Some((s, e)) => if b.subrange(s, e).len() / 12 != ih.count {
                Err(perr(ParseError::MissingRecord))
            } else {
                Ok(
                    (
                        (
                            ih.connection_id,
                            index_entries(b.subrange(s, e), pos, chunk_index, ih.connection_id),
                        ),
                        e,
                    ),
                )
            },
        },
    }
}

/// One record of kind `op`, starting at `pos`, with header `h`.
#[verifier::opaque]
pub open spec fn step(b: Seq<u8>, pos: int, h: Seq<u8>, after: int, op: OpCode, st: WalkState) -> Result<(WalkState, int), Error> {
    match op {
        OpCode::BagHeader => match bag_header_record(b, h, after) {
            Err(e) => Err(e),
            Ok((bh, next)) => Ok((WalkState { header: Some(bh), ..st }, next)),
        },
        OpCode::ChunkHeader => match chunk_record(b, pos, h, after) {
            Err(e) => Err(e),
            Ok((c, next)) => Ok((WalkState { chunks: st.chunks.push(c), ..st }, next)),
        },
        OpCode::IndexDataHeader => if st.chunks.len() == 0 {
            Err(defect(BagDefect::IndexBeforeChunk))
        } else {
            match index_record(
                b,
                h,
                after,
                st.chunks.last().pos,
                (st.chunks.len() - 1) as usize,
            ) {
                Err(e) => Err(e),
                Ok(((conn, es), next)) => Ok(
                    (
                        WalkState {
                            index: st.index + es,
                            index_conns: st.index_conns.push(conn),
                            ..st
                        },
                        next,
                    ),
                ),
            }
        },
        OpCode::ConnectionHeader => match connection_record(b, h, after) {
            Err(e) => Err(e),
            Ok((c, next)) => Ok((WalkState { conns: st.conns.push(c), ..st }, next)),
        },
        OpCode::ChunkInfoHeader => match chunk_info_record(b, h, after) {
            Err(e) => Err(e),
            Ok((ci, next)) => Ok((WalkState { infos: st.infos.push(ci), ..st }, next)),
        },
        OpCode::MessageData => Err(defect(BagDefect::MessageOutsideChunk)),
    }
}

/// Walks the records from `pos` to the end of the file. The walk ends
/// normally where fewer than four bytes are left.
pub open spec fn walk(b: Seq<u8>, pos: int, st: WalkState) -> Result<WalkState, Error>
    decreases b.len() - pos,
{
    if pos < 0 || pos + 4 > b.len() {
        Ok(st)
    } else if pos + 4 + le_u32(b, pos) > b.len() {
        Err(perr(ParseError::BufferTooSmall))
    } else {
        let after = pos + 4 + le_u32(b, pos);
        match spec_header_op(b.subrange(pos + 4, after)) {
            Err(e) => Err(perr(e)),
            Ok(op) => match step(b, pos, b.subrange(pos + 4, after), after, op, st) {
                Err(e) => Err(e),
                Ok((st2, next)) => if next <= pos || next + 4 > b.len() {
                    Ok(st2)
                } else {
                    walk(b, next, st2)
                },
            },
        }
    }
}

pub open spec fn infos_distinct(infos: Seq<(ChunkInfoHeader, Seq<ChunkInfoData>)>) -> bool {
    forall|i: int, j: int|
        0 <= i < j < infos.len() ==> infos[i].0.chunk_header_pos != infos[j].0.chunk_header_pos
}

pub open spec fn has_info(infos: Seq<(ChunkInfoHeader, Seq<ChunkInfoData>)>, pos: u64) -> bool {
    exists|j: int| 0 <= j < infos.len() && infos[j].0.chunk_header_pos == pos
}

pub open spec fn info_for(infos: Seq<(ChunkInfoHeader, Seq<ChunkInfoData>)>, pos: u64) -> (ChunkInfoHeader, Seq<ChunkInfoData>) {
    infos[choose|j: int| 0 <= j < infos.len() && infos[j].0.chunk_header_pos == pos]
}

pub open spec fn joined(c: ChunkSpec, info: (ChunkInfoHeader, Seq<ChunkInfoData>)) -> ChunkView {
    ChunkView {
        compression: c.compression,
        uncompressed_size: c.uncompressed_size,
        compressed_size: c.compressed_size,
        chunk_header_pos: c.pos,
        chunk_data_pos: c.data_pos,
        start_time: info.0.start_time,
        end_time: info.0.end_time,
        connection_count: info.0.connection_count,
        message_counts: info.1,
    }
}

pub open spec fn conns_distinct(conns: Seq<ConnectionView>) -> bool {
    forall|i: int, j: int| 0 <= i < j < conns.len() ==> conns[i].connection_id != conns[j].connection_id
}

pub open spec fn conns_have(conns: Seq<ConnectionView>, id: u32) -> bool {
    exists|c: int| 0 <= c < conns.len() && conns[c].connection_id == id
}

/// Checks what the walk gathered against the bag header and joins each
/// chunk with its chunk-info record.
pub open spec fn finish_walk(st: WalkState) -> Result<MetadataView, Error> {
    match st.header {
        None => Err(defect(BagDefect::MissingBagHeader)),
        Some(bh) => if bh.chunk_count != st.chunks.len() {
            Err(defect(BagDefect::ChunkCountMismatch))
        } else if bh.chunk_count != st.infos.len() {
            Err(defect(BagDefect::ChunkInfoCountMismatch))
        } else if bh.conn_count != st.conns.len() {
            Err(defect(BagDefect::ConnectionCountMismatch))
        } else if !(infos_distinct(st.infos) && forall|i: int|
            0 <= i < st.chunks.len() ==> has_info(st.infos, #[trigger] st.chunks[i].pos)) {
            Err(defect(BagDefect::ChunkInfoMismatch))
        } else if !conns_distinct(st.conns) {
            Err(defect(BagDefect::DuplicateConnection))
        } else if !(forall|k: int|
            0 <= k < st.index_conns.len() ==> conns_have(st.conns, #[trigger] st.index_conns[k])) {
            Err(defect(BagDefect::UnknownConnection))
        } else {
            Ok(
                MetadataView {
                    bag_header: bh,
                    chunks: st.chunks.map_values(
                        |c: ChunkSpec| joined(c, info_for(st.infos, c.pos)),
                    ),
                    connections: st.conns,
                    index: st.index,
                },
            )
        },
    }
}

/// The metadata that the bag `b` holds, or the error that reading it meets.
pub open spec fn spec_open(b: Seq<u8>) -> Result<MetadataView, Error> {
    if !starts_with_magic(b) {
        Err(Error { kind: ErrorKind::NotARosbag })
    } else {
        match walk(b, magic().len() as int, empty_walk()) {
            Err(e) => Err(e),
            Ok(st) => finish_walk(st),
        }
    }
}

/// The position `n`, held at the end of the file.
pub open spec fn clamp(n: int, len: int) -> int {
    if n > len {
        len
    } else {
        n
    }
}

/// The position `len` bytes past `from`, held at the end of `buf`.
fn skip(buf: &[u8], from: usize, len: u32) -> (r: usize)
    requires
        from <= buf@.len(),
    ensures
        r == clamp(from + len, buf@.len() as int),
{
    if buf.len() - from < len as usize {
        buf.len()
    } else {
        from + len as usize
    }
}

/// Checks the magic line that opens a v2.0 bag and returns the version.
pub fn version_check(buf: &[u8]) -> (r: Result<String, Error>)
    ensures
        starts_with_magic(buf@) ==> (r matches Ok(v) && v@ == "2.0"@),
        !starts_with_magic(buf@) ==> (r matches Err(e) && e == (Error { kind: ErrorKind::NotARosbag })),
{
    let expected = "#ROSBAG V2.0\n".as_bytes();
    let n = expected.len();
    if buf.len() < n {
        return Err(Error { kind: ErrorKind::NotARosbag });
    }
    let mut i: usize = 0;
    while i < n
        invariant
            n == expected@.len() == magic().len(),
            expected@ == magic(),
            n <= buf@.len(),
            i <= n,
            forall|j: int| 0 <= j < i ==> buf@[j] == expected@[j],
        decreases n - i,
    {
        if buf[i] != expected[i] {
            assert(buf@.subrange(0, n as int)[i as int] != magic()[i as int]);
            return Err(Error { kind: ErrorKind::NotARosbag });
        }
        i = i + 1;
    }
    assert(buf@.subrange(0, n as int) =~= magic());
    Ok("2.0".to_owned())
}

/// Reads the rest of a bag header record: skips its padding.
fn parse_bag_header(buf: &[u8], h: &[u8], after: usize) -> (r: Result<(BagHeader, usize), Error>)
    requires
        after <= buf@.len(),
    ensures
        match bag_header_record(buf@, h@, after as int) {
            Ok((bh, next)) => r matches Ok((x, n)) && x == bh && n == clamp(next, buf@.len() as int),
            Err(e) => r matches Err(x) && x == e,
        },
{
    let bag_header = match BagHeader::from(h) {
        Ok(bh) => bh,
        Err(e) => return Err(Error::parse(e)),
    };
    if bag_header.index_pos == 0 {
        return Err(Error::new(ErrorKind::UnindexedBag));
    }
    if buf.len() - after < 4 {
        return Err(Error::parse(ParseError::UnexpectedEOF));
    }
    let data_len = match parse_le_u32_at(buf, after) {
        Ok(l) => l,
        Err(_) => return Err(Error::parse(ParseError::UnexpectedEOF)),
    };
    Ok((bag_header, skip(buf, after + 4, data_len)))
}

/// Reads the rest of a chunk record that starts at `pos`: notes where its
/// body lies and skips it.
fn parse_chunk(buf: &[u8], pos: usize, h: &[u8], after: usize) -> (r: Result<(ChunkHeader, usize), Error>)
    requires
        pos < after <= buf@.len(),
    ensures
        match chunk_record(buf@, pos as int, h@, after as int) {
            Ok((c, next)) => r matches Ok((x, n)) && x@ == c && n == clamp(next, buf@.len() as int),
            Err(e) => r matches Err(x) && x == e,
        },
{
    if buf.len() - after < 4 {
        return Err(Error::parse(ParseError::UnexpectedEOF));
    }
    let data_len = match parse_le_u32_at(buf, after) {
        Ok(l) => l,
        Err(_) => return Err(Error::parse(ParseError::UnexpectedEOF)),
    };
    let chunk_data_pos = after + 4;
    let chunk_header = match ChunkHeader::from(h, pos as u64, chunk_data_pos as u64, data_len) {
        Ok(c) => c,
        Err(e) => return Err(Error::parse(e)),
    };
    Ok((chunk_header, skip(buf, chunk_data_pos, data_len)))
}

/// Reads the data of a connection record.
fn parse_connection(buf: &[u8], h: &[u8], after: usize) -> (r: Result<(ConnectionData, usize), Error>)
    requires
        after <= buf@.len(),
    ensures
        match connection_record(buf@, h@, after as int) {
            Ok((c, next)) => r matches Ok((x, n)) && x@ == c && n == next,
            Err(e) => r matches Err(x) && x == e,
        },
{
    let connection_header = match ConnectionHeader::from(h) {
        Ok(c) => c,
        Err(e) => return Err(Error::parse(e)),
    };
    let (data, next) = match get_lengthed_bytes(buf, after) {
        Ok(t) => t,
        Err(e) => return Err(Error::parse(e)),
    };
    match ConnectionData::from(data.as_slice(), connection_header.connection_id, connection_header.topic) {
        Ok(c) => Ok((c, next)),
        Err(e) => Err(Error::parse(e)),
    }
}

/// The eight-byte entries of chunk-info data.
fn decode_info_entries(d: &[u8]) -> (r: Vec<ChunkInfoData>)
    ensures
        r@ == info_entries(d@),
{
    let dl = d.len();
    let n = dl / 8;
    let mut out: Vec<ChunkInfoData> = Vec::with_capacity(n);
    let mut k: usize = 0;
    while k < n
        invariant
            n == d@.len() / 8,
            d@.len() == dl,
            k <= n,
            out@ == info_entries(d@).take(k as int),
        decreases n - k,
    {
        assert(8 * k + 8 <= d@.len()) by (nonlinear_arith)
            requires
                k < n,
                n == d@.len() / 8,
        ;
        let w = &d[8 * k..8 * k + 8];
        assert(w@ == d@.subrange(8 * k, 8 * k + 8));
        match ChunkInfoData::from(w) {
            Ok(e) => {
                assert(e == info_entries(d@)[k as int]);
                out.push(e);
            },
            Err(_) => {
                assert(false);
            },
        }
        assert(out@ =~= info_entries(d@).take(k + 1));
        k = k + 1;
    }
    assert(out@ =~= info_entries(d@));
    out
}

/// Reads the data of a chunk-info record.
fn parse_chunk_info(buf: &[u8], h: &[u8], after: usize) -> (r: Result<(ChunkInfo, usize), Error>)
    requires
        after <= buf@.len(),
    ensures
        match chunk_info_record(buf@, h@, after as int) {
            Ok((ci, next)) => r matches Ok((x, n)) && x@ == ci && n == next,
            Err(e) => r matches Err(x) && x == e,
        },
{
    let header = match ChunkInfoHeader::from(h) {
        Ok(c) => c,
        Err(e) => return Err(Error::parse(e)),
    };
    let (data, next) = match get_lengthed_bytes(buf, after) {
        Ok(t) => t,
        Err(e) => return Err(Error::parse(e)),
    };
    let entries = decode_info_entries(data.as_slice());
    if entries.len() != header.connection_count as usize {
        return Err(Error::parse(ParseError::MissingRecord));
    }
    Ok((ChunkInfo { header, data: entries }, next))
}

/// The twelve-byte entries of index data.
fn decode_index_entries(d: &[u8], pos: u64, chunk_index: usize, conn: u32) -> (r: Vec<IndexData>)
    ensures
        r@ == index_entries(d@, pos, chunk_index, conn),
{
    let dl = d.len();
    let n = dl / 12;
    let mut out: Vec<IndexData> = Vec::with_capacity(n);
    let mut k: usize = 0;
    while k < n
        invariant
            n == d@.len() / 12,
            d@.len() == dl,
            k <= n,
            out@ == index_entries(d@, pos, chunk_index, conn).take(k as int),
        decreases n - k,
    {
        assert(12 * k + 12 <= d@.len()) by (nonlinear_arith)
            requires
                k < n,
                n == d@.len() / 12,
        ;
        let w = &d[12 * k..12 * k + 12];
        assert(w@ == d@.subrange(12 * k, 12 * k + 12));
        match IndexData::from(w, pos, chunk_index, conn) {
            Ok(e) => {
                assert(e == index_entries(d@, pos, chunk_index, conn)[k as int]);
                out.push(e);
            },
            Err(_) => {
                assert(false);
            },
        }
        assert(out@ =~= index_entries(d@, pos, chunk_index, conn).take(k + 1));
        k = k + 1;
    }
    assert(out@ =~= index_entries(d@, pos, chunk_index, conn));
    out
}

/// Reads the data of an index record that belongs to the chunk at `pos`,
/// numbered `chunk_index`.
fn parse_index(buf: &[u8], h: &[u8], after: usize, pos: u64, chunk_index: usize) -> (r: Result<(u32, Vec<IndexData>, usize), Error>)
    requires
        after <= buf@.len(),
    ensures
        match index_record(buf@, h@, after as int, pos, chunk_index) {
            Ok(((conn, es), next)) => r matches Ok((c, x, n)) && c == conn && x@ == es && n == next,
            Err(e) => r matches Err(x) && x == e,
        },
{
    let header = match IndexDataHeader::from(h) {
        Ok(c) => c,
        Err(e) => return Err(Error::parse(e)),
    };
    let (data, next) = match get_lengthed_bytes(buf, after) {
        Ok(t) => t,
        Err(e) => return Err(Error::parse(e)),
    };
    let entries = decode_index_entries(data.as_slice(), pos, chunk_index, header.connection_id);
    if entries.len() != header.count as usize {
        return Err(Error::parse(ParseError::MissingRecord));
    }
    Ok((header.connection_id, entries, next))
}

/// The walk's state as the exec tables hold it.
pub open spec fn state_view(
    header: Option<BagHeader>,
    chunks: Seq<ChunkHeader>,
    infos: Seq<ChunkInfo>,
    conns: Seq<ConnectionData>,
    index: Seq<IndexData>,
    index_conns: Seq<u32>,
) -> WalkState {
    WalkState {
        header,
        chunks: chunks.map_values(|c: ChunkHeader| c@),
        infos: infos.map_values(|c: ChunkInfo| c@),
        conns: conns.map_values(|c: ConnectionData| c@),
        index,
        index_conns,
    }
}

/// The outcome of walking the records from `start` and checking them.
pub open spec fn records_outcome(b: Seq<u8>, start: int) -> Result<MetadataView, Error> {
    match walk(b, start, empty_walk()) {
        Err(e) => Err(e),
        Ok(st) => finish_walk(st),
    }
}

/// The tables gathered so far place every index entry in a chunk, and chunk
/// positions rise with the file.
pub open spec fn gathered_well(
    chunks: Seq<ChunkHeader>,
    index: Seq<IndexData>,
    index_conns: Seq<u32>,
    pos: int,
) -> bool {
    &&& forall|i: int, j: int|
        0 <= i < j < chunks.len() ==> chunks[i].chunk_header_pos < chunks[j].chunk_header_pos
    &&& forall|i: int| 0 <= i < chunks.len() ==> chunks[i].chunk_header_pos < pos
    &&& forall|k: int|
        0 <= k < index.len() ==> {
            let e = #[trigger] index[k];
            &&& e.chunk_index < chunks.len()
            &&& chunks[e.chunk_index as int].chunk_header_pos == e.chunk_header_pos
            &&& index_conns.contains(e.conn_id)
        }
}

/// The gathered counts agree with the bag header `bh`.
pub open spec fn counts_agree(st: WalkState, bh: BagHeader) -> bool {
    &&& st.header == Some(bh)
    &&& bh.chunk_count == st.chunks.len()
    &&& bh.chunk_count == st.infos.len()
    &&& bh.conn_count == st.conns.len()
}

/// Every chunk has exactly one chunk-info record.
pub open spec fn infos_join(st: WalkState) -> bool {
    &&& infos_distinct(st.infos)
    &&& forall|i: int| 0 <= i < st.chunks.len() ==> has_info(st.infos, #[trigger] st.chunks[i].pos)
}

fn copy_counts(v: &Vec<ChunkInfoData>) -> (r: Vec<ChunkInfoData>)
    ensures
        r@ == v@,
{
    let mut out: Vec<ChunkInfoData> = Vec::with_capacity(v.len());
    let mut i: usize = 0;
    while i < v.len()
        invariant
            i <= v@.len(),
            out@ == v@.take(i as int),
        decreases v.len() - i,
    {
        out.push(v[i]);
        assert(out@ =~= v@.take(i + 1));
        i = i + 1;
    }
    assert(out@ =~= v@);
    out
}

/// Checks the gathered records against the bag header and each other, and
/// joins every chunk with its chunk-info record.
fn finish_records(
    bag_header: Option<BagHeader>,
    chunks: Vec<ChunkHeader>,
    infos: Vec<ChunkInfo>,
    conns: Vec<ConnectionData>,
    index: Vec<IndexData>,
    index_conns: Vec<u32>,
    pos: usize,
) -> (r: Result<(BagHeader, Vec<ChunkMetadata>, Vec<ConnectionData>, Vec<IndexData>), Error>)
    requires
        gathered_well(chunks@, index@, index_conns@, pos as int),
    ensures
        match finish_walk(state_view(bag_header, chunks@, infos@, conns@, index@, index_conns@)) {
            Ok(m) => r matches Ok((bh, cs, cn, ix)) && m == (MetadataView {
                bag_header: bh,
                chunks: cs@.map_values(|c: ChunkMetadata| c@),
                connections: cn@.map_values(|c: ConnectionData| c@),
                index: ix@,
            }) && m.wf(),
            Err(e) => r matches Err(x) && x == e,
        },
{
    let ghost st = state_view(bag_header, chunks@, infos@, conns@, index@, index_conns@);
    let bh = match bag_header {
        Some(bh) => bh,
        None => return Err(Error::invalid(BagDefect::MissingBagHeader)),
    };
    if bh.chunk_count as usize != chunks.len() {
        return Err(Error::invalid(BagDefect::ChunkCountMismatch));
    }
    if bh.chunk_count as usize != infos.len() {
        return Err(Error::invalid(BagDefect::ChunkInfoCountMismatch));
    }
    if bh.conn_count as usize != conns.len() {
        return Err(Error::invalid(BagDefect::ConnectionCountMismatch));
    }
    let mut i: usize = 0;
    while i < infos.len()
        invariant
            st == state_view(bag_header, chunks@, infos@, conns@, index@, index_conns@),
            counts_agree(st, bh),
            i <= infos@.len(),
            forall|a: int, b: int|
                0 <= a < i && a < b < infos@.len() ==> infos@[a].header.chunk_header_pos
                    != infos@[b].header.chunk_header_pos,
        decreases infos.len() - i,
    {
        let mut j: usize = i + 1;
        while j < infos.len()
            invariant
                st == state_view(bag_header, chunks@, infos@, conns@, index@, index_conns@),
                counts_agree(st, bh),
                i < infos@.len(),
                i + 1 <= j <= infos@.len(),
                forall|b: int|
                    i < b < j ==> infos@[i as int].header.chunk_header_pos
                        != infos@[b].header.chunk_header_pos,
            decreases infos.len() - j,
        {
            if infos[i].header.chunk_header_pos == infos[j].header.chunk_header_pos {
                proof {
                    assert(st.infos[i as int].0.chunk_header_pos == st.infos[j as int].0.chunk_header_pos);
                }
                return Err(Error::invalid(BagDefect::ChunkInfoMismatch));
            }
            j = j + 1;
        }
        i = i + 1;
    }
    assert(infos_distinct(st.infos));
    let mut metas: Vec<ChunkMetadata> = Vec::with_capacity(chunks.len());
    let mut c: usize = 0;
    while c < chunks.len()
        invariant
            st == state_view(bag_header, chunks@, infos@, conns@, index@, index_conns@),
            counts_agree(st, bh),
            infos_distinct(st.infos),
            c <= chunks@.len(),
            metas@.len() == c,
            forall|k: int| 0 <= k < c ==> has_info(st.infos, #[trigger] st.chunks[k].pos),
            forall|k: int|
                0 <= k < c ==> (#[trigger] metas@[k])@ == joined(
                    st.chunks[k],
                    info_for(st.infos, st.chunks[k].pos),
                ),
        decreases chunks.len() - c,
    {
        let pos_c = chunks[c].chunk_header_pos;
        let mut j: usize = 0;
        while j < infos.len() && infos[j].header.chunk_header_pos != pos_c
            invariant
                st == state_view(bag_header, chunks@, infos@, conns@, index@, index_conns@),
                c < chunks@.len(),
                pos_c == chunks@[c as int].chunk_header_pos,
                j <= infos@.len(),
                forall|b: int| 0 <= b < j ==> infos@[b].header.chunk_header_pos != pos_c,
            decreases infos.len() - j,
        {
            j = j + 1;
        }
        if j >= infos.len() {
            proof {
                assert(!has_info(st.infos, st.chunks[c as int].pos));
            }
            return Err(Error::invalid(BagDefect::ChunkInfoMismatch));
        }
        proof {
            let chosen = choose|b: int| 0 <= b < st.infos.len() && st.infos[b].0.chunk_header_pos == pos_c;
            assert(0 <= j < st.infos.len() && st.infos[j as int].0.chunk_header_pos == pos_c);
            assert(chosen == j) by {
                if chosen < j {
                    assert(st.infos[chosen].0.chunk_header_pos != st.infos[j as int].0.chunk_header_pos);
                } else if chosen > j {
                    assert(st.infos[j as int].0.chunk_header_pos != st.infos[chosen].0.chunk_header_pos);
                }
            }
        }
        let info = &infos[j];
        let meta = ChunkMetadata {
            compression: chunks[c].compression.clone(),
            uncompressed_size: chunks[c].uncompressed_size,
            compressed_size: chunks[c].compressed_size,
            chunk_header_pos: chunks[c].chunk_header_pos,
            chunk_data_pos: chunks[c].chunk_data_pos,
            start_time: info.header.start_time,
            end_time: info.header.end_time,
            connection_count: info.header.connection_count,
            message_counts: copy_counts(&info.data),
        };
        metas.push(meta);
        c = c + 1;
    }
    let mut a: usize = 0;
    while a < conns.len()
        invariant
            st == state_view(bag_header, chunks@, infos@, conns@, index@, index_conns@),
            counts_agree(st, bh),
            infos_join(st),
            a <= conns@.len(),
            forall|x: int, y: int|
                0 <= x < a && x < y < conns@.len() ==> conns@[x].connection_id
                    != conns@[y].connection_id,
        decreases conns.len() - a,
    {
        let mut b: usize = a + 1;
        while b < conns.len()
            invariant
                st == state_view(bag_header, chunks@, infos@, conns@, index@, index_conns@),
                counts_agree(st, bh),
                infos_join(st),
                a < conns@.len(),
                a + 1 <= b <= conns@.len(),
                forall|y: int| a < y < b ==> conns@[a as int].connection_id != conns@[y].connection_id,
            decreases conns.len() - b,
        {
            if conns[a].connection_id == conns[b].connection_id {
                proof {
                    assert(st.conns[a as int].connection_id == st.conns[b as int].connection_id);
                }
                return Err(Error::invalid(BagDefect::DuplicateConnection));
            }
            b = b + 1;
        }
        a = a + 1;
    }
    assert(conns_distinct(st.conns));
    assert(infos_join(st));
    let mut k: usize = 0;
    while k < index_conns.len()
        invariant
            st == state_view(bag_header, chunks@, infos@, conns@, index@, index_conns@),
            counts_agree(st, bh),
            infos_join(st),
            conns_distinct(st.conns),
            k <= index_conns@.len(),
            forall|x: int| 0 <= x < k ==> conns_have(st.conns, #[trigger] st.index_conns[x]),
        decreases index_conns.len() - k,
    {
        let id = index_conns[k];
        let mut m: usize = 0;
        while m < conns.len() && conns[m].connection_id != id
            invariant
                st == state_view(bag_header, chunks@, infos@, conns@, index@, index_conns@),
                k < index_conns@.len(),
                id == index_conns@[k as int],
                m <= conns@.len(),
                forall|y: int| 0 <= y < m ==> conns@[y].connection_id != id,
            decreases conns.len() - m,
        {
            m = m + 1;
        }
        if m >= conns.len() {
            proof {
                assert(!conns_have(st.conns, st.index_conns[k as int]));
            }
            return Err(Error::invalid(BagDefect::UnknownConnection));
        }
        proof {
            assert(st.conns[m as int].connection_id == id);
        }
        k = k + 1;
    }
    let ghost mv = MetadataView {
        bag_header: bh,
        chunks: metas@.map_values(|c: ChunkMetadata| c@),
        connections: conns@.map_values(|c: ConnectionData| c@),
        index: index@,
    };
    assert(mv.chunks =~= st.chunks.map_values(|c: ChunkSpec| joined(c, info_for(st.infos, c.pos))));
    proof {
        assert forall|e: int| 0 <= e < mv.index.len() implies mv.entry_is_placed(#[trigger] mv.index[e]) by {
            let x = mv.index[e];
            assert(index_conns@.contains(x.conn_id));
            let q = choose|q: int| 0 <= q < index_conns@.len() && index_conns@[q] == x.conn_id;
            assert(conns_have(st.conns, st.index_conns[q]));
        }
    }
    Ok((bh, metas, conns, index))
}

/// Walks the records that follow the magic line, from `start` to the end
/// of `buf`, and builds the metadata tables.
#[verifier::rlimit(100)]
#[verifier::spinoff_prover]
fn parse_records(buf: &[u8], start: usize) -> (r: Result<(BagHeader, Vec<ChunkMetadata>, Vec<ConnectionData>, Vec<IndexData>), Error>)
    requires
        start <= buf@.len(),
    ensures
        match records_outcome(buf@, start as int) {
            Ok(m) => r matches Ok((bh, cs, cn, ix)) && m == (MetadataView {
                bag_header: bh,
                chunks: cs@.map_values(|c: ChunkMetadata| c@),
                connections: cn@.map_values(|c: ConnectionData| c@),
                index: ix@,
            }) && m.wf(),
            Err(e) => r matches Err(x) && x == e,
        },
{
    let ghost b = buf@;
    let mut bag_header: Option<BagHeader> = None;
    let mut chunk_headers: Vec<ChunkHeader> = Vec::new();
    let mut chunk_infos: Vec<ChunkInfo> = Vec::new();
    let mut connections: Vec<ConnectionData> = Vec::new();
    let mut index: Vec<IndexData> = Vec::new();
    let mut index_conns: Vec<u32> = Vec::new();
    let mut pos: usize = start;
    proof {
        let sv0 = state_view(bag_header, chunk_headers@, chunk_infos@, connections@, index@, index_conns@);
        assert(sv0.chunks =~= Seq::<ChunkSpec>::empty());
        assert(sv0.infos =~= Seq::<(ChunkInfoHeader, Seq<ChunkInfoData>)>::empty());
        assert(sv0.conns =~= Seq::<ConnectionView>::empty());
        assert(sv0.index =~= Seq::<IndexData>::empty());
        assert(sv0.index_conns =~= Seq::<u32>::empty());
        assert(sv0 == empty_walk());
    }
    loop
        invariant
            b == buf@,
            pos <= b.len(),
            walk(b, start as int, empty_walk()) == walk(
                b,
                pos as int,
                state_view(bag_header, chunk_headers@, chunk_infos@, connections@, index@, index_conns@),
            ),
            gathered_well(chunk_headers@, index@, index_conns@, pos as int),
        decreases b.len() - pos,
    {
        let ghost sv = state_view(bag_header, chunk_headers@, chunk_infos@, connections@, index@, index_conns@);
        if buf.len() - pos < 4 {
            return finish_records(bag_header, chunk_headers, chunk_infos, connections, index, index_conns, pos);
        }
        let header_len = match parse_le_u32_at(buf, pos) {
            Ok(l) => l as usize,
            Err(e) => return Err(Error::parse(e)),
        };
        let hs = pos + 4;
        if buf.len() - hs < header_len {
            return Err(Error::parse(ParseError::BufferTooSmall));
        }
        let after = hs + header_len;
        let h = &buf[hs..after];
        assert(h@ == b.subrange(pos + 4, after as int));
        let op = match read_header_op(h) {
            Ok(op) => op,
            Err(e) => return Err(Error::parse(e)),
        };
        proof {
            reveal(step);
        }
        let ghost old_chunks = chunk_headers@;
        let ghost old_index = index@;
        let ghost old_index_conns = index_conns@;
        match op {
            OpCode::BagHeader => {
                match parse_bag_header(buf, h, after) {
                    Ok((bh, next)) => {
                        bag_header = Some(bh);
                        pos = next;
                    },
                    Err(e) => return Err(e),
                }
            },
            OpCode::ChunkHeader => {
                match parse_chunk(buf, pos, h, after) {
                    Ok((c, next)) => {
                        chunk_headers.push(c);
                        pos = next;
                        assert(chunk_headers@.map_values(|c: ChunkHeader| c@) =~= old_chunks.map_values(|c: ChunkHeader| c@).push(c@));
                    },
                    Err(e) => return Err(e),
                }
            },
            OpCode::IndexDataHeader => {
                if chunk_headers.len() == 0 {
                    return Err(Error::invalid(BagDefect::IndexBeforeChunk));
                }
                let ci = chunk_headers.len() - 1;
                let cpos = chunk_headers[ci].chunk_header_pos;
                assert(sv.chunks.last().pos == cpos);
                match parse_index(buf, h, after, cpos, ci) {
                    Ok((conn, es, next)) => {
                        let mut es = es;
                        let ghost es_view = es@;
                        index.append(&mut es);
                        index_conns.push(conn);
                        pos = next;
                        proof {
                            assert forall|k: int| 0 <= k < index@.len() implies {
                                let e = #[trigger] index@[k];
                                &&& e.chunk_index < chunk_headers@.len()
                                &&& chunk_headers@[e.chunk_index as int].chunk_header_pos == e.chunk_header_pos
                                &&& index_conns@.contains(e.conn_id)
                            } by {
                                if k < old_index.len() {
                                    assert(index@[k] == old_index[k]);
                                    assert(old_index_conns.contains(index@[k].conn_id));
                                    let q = choose|q: int| 0 <= q < old_index_conns.len() && old_index_conns[q] == index@[k].conn_id;
                                    assert(index_conns@[q] == old_index_conns[q]);
                                } else {
                                    assert(index@[k] == es_view[k - old_index.len()]);
                                    assert(index_conns@[old_index_conns.len() as int] == conn);
                                }
                            }
                        }
                    },
                    Err(e) => return Err(e),
                }
            },
            OpCode::ConnectionHeader => {
                match parse_connection(buf, h, after) {
                    Ok((c, next)) => {
                        let ghost old_conns = connections@;
                        connections.push(c);
                        pos = next;
                        assert(connections@.map_values(|c: ConnectionData| c@) =~= old_conns.map_values(|c: ConnectionData| c@).push(c@));
                    },
                    Err(e) => return Err(e),
                }
            },
            OpCode::ChunkInfoHeader => {
                match parse_chunk_info(buf, h, after) {
                    Ok((ci, next)) => {
                        let ghost old_infos = chunk_infos@;
                        chunk_infos.push(ci);
                        pos = next;
                        assert(chunk_infos@.map_values(|c: ChunkInfo| c@) =~= old_infos.map_values(|c: ChunkInfo| c@).push(ci@));
                    },
                    Err(e) => return Err(e),
                }
            },
            OpCode::MessageData => {
                return Err(Error::invalid(BagDefect::MessageOutsideChunk));
            },
        }
    }
}

impl BagMetadata {
    /// Reads the metadata of the bag whose bytes are `bytes`, without
    /// loading its chunks.
    pub fn from_bytes(bytes: &[u8]) -> (r: Result<BagMetadata, Error>)
        ensures
            match spec_open(bytes@) {
                Ok(m) => r matches Ok(x) && x@ == m && x.wf() && x.num_bytes == bytes@.len()
                    && x.version@ == "2.0"@,
                Err(e) => r matches Err(x) && x == e,
            },
    {
        let version = match version_check(bytes) {
            Ok(v) => v,
            Err(e) => return Err(e),
        };
        let start = "#ROSBAG V2.0\n".as_bytes().len();
        match parse_records(bytes, start) {
            Ok((bag_header, chunk_metadata, connection_data, index_data)) => Ok(
                BagMetadata {
                    version,
                    bag_header,
                    chunk_metadata,
                    connection_data,
                    index_data,
                    num_bytes: bytes.len() as u64,
                },
            ),
            Err(e) => Err(e),
        }
    }
}

} // verus!
