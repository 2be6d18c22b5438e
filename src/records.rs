//! Decoders of the record headers and record data of a bag.
use vstd::prelude::*;

use crate::errors::ParseError;
use crate::fields::{
    decode_with, field_at, field_name, fields_from, first_error, first_value, header_fault,
    header_fields, is_name, kind_of, last_value, lemma_fields_step, lemma_first_error_append,
    lemma_first_error_push, lemma_first_value_append, lemma_first_value_push,
    lemma_last_value_push, lossy_text, name, parse_field, utf8_lossy, Field, FieldName,
};
use crate::parsing::{le_u32, le_u64, parse_le_u32, parse_le_u32_at, parse_le_u64, parse_u8};
use crate::time::Time;

verus! {

/// The kind of a record, as the `op` field of its header names it.
#[derive(Debug, Clone, Copy, PartialEq, Eq, Structural)]
pub enum OpCode {
    BagHeader,
    ChunkHeader,
    ConnectionHeader,
    MessageData,
    IndexDataHeader,
    ChunkInfoHeader,
}

impl OpCode {
    pub open spec fn spec_from(byte: u8) -> Result<OpCode, ParseError> {
        if byte == 3 {
            Ok(OpCode::BagHeader)
        } else if byte == 5 {
            Ok(OpCode::ChunkHeader)
        } else if byte == 7 {
            Ok(OpCode::ConnectionHeader)
        } else if byte == 2 {
            Ok(OpCode::MessageData)
        } else if byte == 4 {
            Ok(OpCode::IndexDataHeader)
        } else if byte == 6 {
            Ok(OpCode::ChunkInfoHeader)
        } else {
            Err(ParseError::InvalidOpCode)
        }
    }

    /// Decodes an `op` byte.
    pub fn from(byte: u8) -> (r: Result<OpCode, ParseError>)
        ensures
            r == OpCode::spec_from(byte),
    {
        match byte {
            3 => Ok(OpCode::BagHeader),
            5 => Ok(OpCode::ChunkHeader),
            7 => Ok(OpCode::ConnectionHeader),
            2 => Ok(OpCode::MessageData),
            4 => Ok(OpCode::IndexDataHeader),
            6 => Ok(OpCode::ChunkInfoHeader),
            _ => Err(ParseError::InvalidOpCode),
        }
    }
}

/// The record kind that header `h` names in its first `op` field.
pub open spec fn spec_header_op(h: Seq<u8>) -> Result<OpCode, ParseError> {
    match first_value(header_fields(h), FieldName::Op) {
        Some(v) => if v.len() < 1 {
            Err(ParseError::BufferTooSmall)
        } else {
            OpCode::spec_from(v[0])
        },
        None => match header_fault(h) {
            Some(e) => Err(e),
            None => Err(ParseError::MissingField),
        },
    }
}

/// The fields of header `h` that follow position `next`.
pub open spec fn fields_after(h: Seq<u8>, next: int) -> Seq<Field> {
    if next >= h.len() {
        Seq::empty()
    } else {
        fields_from(h, next).0
    }
}

/// What stopped the reading of the fields that follow `next`.
pub open spec fn fault_after(h: Seq<u8>, next: int) -> Option<ParseError> {
    if next >= h.len() {
        None
    } else {
        fields_from(h, next).1
    }
}

/// The invariant of a loop that reads the fields of `h` one by one: `done`
/// have been read, and reading goes on at `i`.
pub open spec fn reading_at(h: Seq<u8>, i: int, done: Seq<Field>) -> bool {
    &&& 0 <= i
    &&& (i == 0 || i < h.len())
    &&& header_fields(h) == done + fields_from(h, i).0
    &&& header_fault(h) == fields_from(h, i).1
}

pub proof fn lemma_read_fault(h: Seq<u8>, i: int, done: Seq<Field>)
    requires
        reading_at(h, i, done),
        field_at(h, i) is Err,
    ensures
        header_fields(h) == done,
        header_fault(h) == Some(field_at(h, i)->Err_0),
{
    assert(done + Seq::<Field>::empty() =~= done);
}

pub proof fn lemma_read_field(h: Seq<u8>, i: int, done: Seq<Field>)
    requires
        reading_at(h, i, done),
        field_at(h, i) is Ok,
    ensures
        ({
            let (next, f) = field_at(h, i)->Ok_0;
            &&& header_fields(h) == done.push(f) + fields_after(h, next)
            &&& header_fault(h) == fault_after(h, next)
            &&& next >= h.len() ==> header_fields(h) == done.push(f) && header_fault(h) is None
            &&& next < h.len() ==> next > i && reading_at(h, next, done.push(f))
        }),
{
    let (next, f) = field_at(h, i)->Ok_0;
    if next < h.len() {
        lemma_fields_step(h, i);
        assert(done + (seq![f] + fields_from(h, next).0) =~= done.push(f) + fields_from(
            h,
            next,
        ).0);
    } else {
        assert(done + seq![f] =~= done.push(f));
        assert(done.push(f) + Seq::<Field>::empty() =~= done.push(f));
    }
}

/// A field that fails its check makes the header fail with that fault.
pub proof fn lemma_check_fails(
    h: Seq<u8>,
    done: Seq<Field>,
    f: Field,
    rest: Seq<Field>,
    check: spec_fn(Seq<u8>, Seq<u8>) -> Option<ParseError>,
)
    requires
        header_fields(h) == done.push(f) + rest,
        first_error(done, check) is None,
        check(f.0, f.1) is Some,
    ensures
        first_error(header_fields(h), check) == check(f.0, f.1),
{
    lemma_first_error_push(done, f, check);
    lemma_first_error_append(done.push(f), rest, check);
}

/// Finds the record kind of header `buf` from its first `op` field.
pub fn read_header_op(buf: &[u8]) -> (r: Result<OpCode, ParseError>)
    ensures
        r == spec_header_op(buf@),
{
    let ghost h = buf@;
    let ghost mut done: Seq<Field> = Seq::empty();
    let mut i: usize = 0;
    assert(header_fields(h) =~= done + fields_from(h, 0).0);
    loop
        invariant
            reading_at(h, i as int, done),
            h == buf@,
            first_value(done, FieldName::Op) is None,
        decreases h.len() - i,
    {
        let (next, n, v) = match parse_field(buf, i) {
            Ok(t) => t,
            Err(e) => {
                proof {
                    lemma_read_fault(h, i as int, done);
                }
                return Err(e);
            },
        };
        let ghost f = (n@, v@);
        proof {
            lemma_read_field(h, i as int, done);
            lemma_first_value_push(done, f, FieldName::Op);
        }
        if field_name(n) == FieldName::Op {
            proof {
                lemma_first_value_append(done.push(f), fields_after(h, next as int), FieldName::Op);
            }
            return match parse_u8(v) {
                Ok(op) => OpCode::from(op),
                Err(e) => Err(e),
            };
        }
        proof {
            done = done.push(f);
        }
        if next >= buf.len() {
            return Err(ParseError::MissingField);
        }
        i = next;
    }
}

/// Fails when an `op` field does not hold `code`.
pub open spec fn op_check(v: Seq<u8>, code: u8) -> Option<ParseError> {
    if v.len() < 1 {
        Some(ParseError::BufferTooSmall)
    } else if v[0] != code {
        Some(ParseError::UnexpectedOpCode)
    } else {
        None
    }
}

/// Fails when a value is shorter than `w` bytes.
pub open spec fn width_check(v: Seq<u8>, w: int) -> Option<ParseError> {
    if v.len() < w {
        Some(ParseError::BufferTooSmall)
    } else {
        None
    }
}

pub open spec fn as_u64(o: Option<Seq<u8>>) -> Option<u64> {
    match o {
        Some(v) => Some(le_u64(v, 0)),
        None => None,
    }
}

pub open spec fn as_u32(o: Option<Seq<u8>>) -> Option<u32> {
    match o {
        Some(v) => Some(le_u32(v, 0)),
        None => None,
    }
}

pub open spec fn as_time(o: Option<Seq<u8>>) -> Option<Time> {
    match o {
        Some(v) => Some(Time::from_bytes_at(v, 0)),
        None => None,
    }
}

/// `t` holds the text of the value `o`, if there is one.
pub open spec fn holds_text(t: Option<String>, o: Option<Seq<u8>>) -> bool {
    match o {
        Some(v) => t is Some && t->0@ == utf8_lossy(v),
        None => t is None,
    }
}

/// The header of the bag: where its index starts and how many connections
/// and chunks it holds.
#[derive(Debug, Clone, Copy, PartialEq, Eq, Structural)]
pub struct BagHeader {
    pub index_pos: u64,
    pub conn_count: u32,
    pub chunk_count: u32,
}

pub open spec fn bag_header_check(n: Seq<u8>, v: Seq<u8>) -> Option<ParseError> {
    match kind_of(n) {
        FieldName::IndexPos => width_check(v, 8),
        FieldName::ConnCount => width_check(v, 4),
        FieldName::ChunkCount => width_check(v, 4),
        FieldName::Op => op_check(v, 3),
        _ => Some(ParseError::UnexpectedField),
    }
}

pub open spec fn bag_header_finish(fs: Seq<Field>) -> Result<BagHeader, ParseError> {
    if last_value(fs, FieldName::Op) is None {
        Err(ParseError::MissingField)
    } else {
        match (
            as_u64(last_value(fs, FieldName::IndexPos)),
            as_u32(last_value(fs, FieldName::ConnCount)),
            as_u32(last_value(fs, FieldName::ChunkCount)),
        ) {
            (Some(index_pos), Some(conn_count), Some(chunk_count)) => Ok(
                BagHeader { index_pos, conn_count, chunk_count },
            ),
            _ => Err(ParseError::MissingField),
        }
    }
}

pub open spec fn spec_bag_header(h: Seq<u8>) -> Result<BagHeader, ParseError> {
    decode_with(
        h,
        |n: Seq<u8>, v: Seq<u8>| bag_header_check(n, v),
        |fs: Seq<Field>| bag_header_finish(fs),
    )
}

impl BagHeader {
    /// Decodes the header of a bag header record.
    pub fn from(buf: &[u8]) -> (r: Result<BagHeader, ParseError>)
        ensures
            r == spec_bag_header(buf@),
    {
        let ghost h = buf@;
        let ghost check = |n: Seq<u8>, v: Seq<u8>| bag_header_check(n, v);
        let ghost mut done: Seq<Field> = Seq::empty();
        let mut i: usize = 0;
        let mut has_op = false;
        let mut index_pos: Option<u64> = None;
        let mut conn_count: Option<u32> = None;
        let mut chunk_count: Option<u32> = None;
        assert(header_fields(h) =~= done + fields_from(h, 0).0);
        loop
            invariant
                reading_at(h, i as int, done),
                h == buf@,
                check == (|n: Seq<u8>, v: Seq<u8>| bag_header_check(n, v)),
                first_error(done, check) is None,
                has_op == (last_value(done, FieldName::Op) is Some),
                index_pos == as_u64(last_value(done, FieldName::IndexPos)),
                conn_count == as_u32(last_value(done, FieldName::ConnCount)),
                chunk_count == as_u32(last_value(done, FieldName::ChunkCount)),
            decreases h.len() - i,
        {
            let (next, n, v) = match parse_field(buf, i) {
                Ok(t) => t,
                Err(e) => {
                    proof {
                        lemma_read_fault(h, i as int, done);
                    }
                    return Err(e);
                },
            };
            let ghost f = (n@, v@);
            proof {
                lemma_read_field(h, i as int, done);
                lemma_first_error_push(done, f, check);
                lemma_last_value_push(done, f, FieldName::Op);
                lemma_last_value_push(done, f, FieldName::IndexPos);
                lemma_last_value_push(done, f, FieldName::ConnCount);
                lemma_last_value_push(done, f, FieldName::ChunkCount);
            }
            let fault: Option<ParseError> = match field_name(n) {
                FieldName::IndexPos => match parse_le_u64(v) {
                    Ok(x) => {
                        index_pos = Some(x);
                        None
                    },
                    Err(e) => Some(e),
                },
                FieldName::ConnCount => match parse_le_u32(v) {
                    Ok(x) => {
                        conn_count = Some(x);
                        None
                    },
                    Err(e) => Some(e),
                },
                FieldName::ChunkCount => match parse_le_u32(v) {
                    Ok(x) => {
                        chunk_count = Some(x);
                        None
                    },
                    Err(e) => Some(e),
                },
                FieldName::Op => {
                    has_op = true;
                    check_op(v, 3)
                },
                _ => Some(ParseError::UnexpectedField),
            };
            assert(fault == check(f.0, f.1));
            if let Some(e) = fault {
                proof {
                    lemma_check_fails(h, done, f, fields_after(h, next as int), check);
                }
                return Err(e);
            }
            proof {
                done = done.push(f);
            }
            if next >= buf.len() {
                if !has_op {
                    return Err(ParseError::MissingField);
                }
                return match (index_pos, conn_count, chunk_count) {
                    (Some(index_pos), Some(conn_count), Some(chunk_count)) => Ok(
                        BagHeader { index_pos, conn_count, chunk_count },
                    ),
                    _ => Err(ParseError::MissingField),
                };
            }
            i = next;
        }
    }
}

/// The header of a chunk record, with where the chunk lies in the file.
pub struct ChunkHeader {
    pub compression: String,
    pub uncompressed_size: u32,
    pub compressed_size: u32,
    pub chunk_header_pos: u64,
    pub chunk_data_pos: u64,
}

pub open spec fn chunk_header_check(n: Seq<u8>, v: Seq<u8>) -> Option<ParseError> {
    match kind_of(n) {
        FieldName::Compression => None,
        FieldName::Size => width_check(v, 4),
        FieldName::Op => op_check(v, 5),
        _ => Some(ParseError::UnexpectedField),
    }
}

/// The compression name's bytes and the uncompressed size.
pub open spec fn chunk_header_finish(fs: Seq<Field>) -> Result<(Seq<u8>, u32), ParseError> {
    if last_value(fs, FieldName::Op) is None {
        Err(ParseError::MissingField)
    } else {
        match (last_value(fs, FieldName::Compression), as_u32(last_value(fs, FieldName::Size))) {
            (Some(c), Some(size)) => Ok((c, size)),
            _ => Err(ParseError::MissingField),
        }
    }
}

pub open spec fn spec_chunk_header(h: Seq<u8>) -> Result<(Seq<u8>, u32), ParseError> {
    decode_with(
        h,
        |n: Seq<u8>, v: Seq<u8>| chunk_header_check(n, v),
        |fs: Seq<Field>| chunk_header_finish(fs),
    )
}

impl ChunkHeader {
    /// Decodes the header of a chunk record whose header starts at
    /// `chunk_header_pos` and whose `compressed_size` bytes of data start at
    /// `chunk_data_pos`.
    pub fn from(buf: &[u8], chunk_header_pos: u64, chunk_data_pos: u64, compressed_size: u32) -> (r:
        Result<ChunkHeader, ParseError>)
        ensures
            match spec_chunk_header(buf@) {
                Ok((c, size)) => r matches Ok(ch) && ch.compression@ == utf8_lossy(c)
                    && ch.uncompressed_size == size && ch.compressed_size == compressed_size
                    && ch.chunk_header_pos == chunk_header_pos && ch.chunk_data_pos
                    == chunk_data_pos,
                Err(e) => r matches Err(e2) && e2 == e,
            },
    {
        let ghost h = buf@;
        let ghost check = |n: Seq<u8>, v: Seq<u8>| chunk_header_check(n, v);
        let ghost mut done: Seq<Field> = Seq::empty();
        let mut i: usize = 0;
        let mut has_op = false;
        let mut compression: Option<String> = None;
        let mut size: Option<u32> = None;
        assert(header_fields(h) =~= done + fields_from(h, 0).0);
        loop
            invariant
                reading_at(h, i as int, done),
                h == buf@,
                check == (|n: Seq<u8>, v: Seq<u8>| chunk_header_check(n, v)),
                first_error(done, check) is None,
                has_op == (last_value(done, FieldName::Op) is Some),
                holds_text(compression, last_value(done, FieldName::Compression)),
                size == as_u32(last_value(done, FieldName::Size)),
            decreases h.len() - i,
        {
            let (next, n, v) = match parse_field(buf, i) {
                Ok(t) => t,
                Err(e) => {
                    proof {
                        lemma_read_fault(h, i as int, done);
                    }
                    return Err(e);
                },
            };
            let ghost f = (n@, v@);
            proof {
                lemma_read_field(h, i as int, done);
                lemma_first_error_push(done, f, check);
                lemma_last_value_push(done, f, FieldName::Op);
                lemma_last_value_push(done, f, FieldName::Compression);
                lemma_last_value_push(done, f, FieldName::Size);
            }
            let fault: Option<ParseError> = match field_name(n) {
                FieldName::Compression => {
                    compression = Some(lossy_text(v));
                    None
                },
                FieldName::Size => match parse_le_u32(v) {
                    Ok(x) => {
                        size = Some(x);
                        None
                    },
                    Err(e) => Some(e),
                },
                FieldName::Op => {
                    has_op = true;
                    check_op(v, 5)
                },
                _ => Some(ParseError::UnexpectedField),
            };
            assert(fault == check(f.0, f.1));
            if let Some(e) = fault {
                proof {
                    lemma_check_fails(h, done, f, fields_after(h, next as int), check);
                }
                return Err(e);
            }
            proof {
                done = done.push(f);
            }
            if next >= buf.len() {
                if !has_op {
                    return Err(ParseError::MissingField);
                }
                return match (compression, size) {
                    (Some(compression), Some(uncompressed_size)) => Ok(
                        ChunkHeader {
                            compression,
                            uncompressed_size,
                            compressed_size,
                            chunk_header_pos,
                            chunk_data_pos,
                        },
                    ),
                    _ => Err(ParseError::MissingField),
                };
            }
            i = next;
        }
    }
}

/// The header of a chunk-info record: which chunk it describes, the time
/// range of the chunk's messages and how many connections the chunk holds.
#[derive(Debug, Clone, Copy, PartialEq, Eq, Structural)]
pub struct ChunkInfoHeader {
    pub version: u32,
    pub chunk_header_pos: u64,
    pub start_time: Time,
    pub end_time: Time,
    pub connection_count: u32,
}

pub open spec fn chunk_info_check(n: Seq<u8>, v: Seq<u8>) -> Option<ParseError> {
    match kind_of(n) {
        FieldName::Ver => width_check(v, 4),
        FieldName::ChunkPos => width_check(v, 8),
        FieldName::StartTime => width_check(v, 8),
        FieldName::EndTime => width_check(v, 8),
        FieldName::Count => width_check(v, 4),
        FieldName::Op => op_check(v, 6),
        _ => Some(ParseError::UnexpectedField),
    }
}

pub open spec fn chunk_info_finish(fs: Seq<Field>) -> Result<ChunkInfoHeader, ParseError> {
    if last_value(fs, FieldName::Op) is None {
        Err(ParseError::MissingField)
    } else {
        match (
            as_u32(last_value(fs, FieldName::Ver)),
            as_u64(last_value(fs, FieldName::ChunkPos)),
            as_time(last_value(fs, FieldName::StartTime)),
            as_time(last_value(fs, FieldName::EndTime)),
            as_u32(last_value(fs, FieldName::Count)),
        ) {
            (
                Some(version),
                Some(chunk_header_pos),
                Some(start_time),
                Some(end_time),
                Some(connection_count),
            ) => Ok(
                ChunkInfoHeader { version, chunk_header_pos, start_time, end_time, connection_count },
            ),
            _ => Err(ParseError::MissingField),
        }
    }
}

pub open spec fn spec_chunk_info_header(h: Seq<u8>) -> Result<ChunkInfoHeader, ParseError> {
    decode_with(
        h,
        |n: Seq<u8>, v: Seq<u8>| chunk_info_check(n, v),
        |fs: Seq<Field>| chunk_info_finish(fs),
    )
}

impl ChunkInfoHeader {
    /// Decodes the header of a chunk-info record.
    pub fn from(buf: &[u8]) -> (r: Result<ChunkInfoHeader, ParseError>)
        ensures
            r == spec_chunk_info_header(buf@),
    {
        let ghost h = buf@;
        let ghost check = |n: Seq<u8>, v: Seq<u8>| chunk_info_check(n, v);
        let ghost mut done: Seq<Field> = Seq::empty();
        let mut i: usize = 0;
        let mut has_op = false;
        let mut version: Option<u32> = None;
        let mut chunk_header_pos: Option<u64> = None;
        let mut start_time: Option<Time> = None;
        let mut end_time: Option<Time> = None;
        let mut connection_count: Option<u32> = None;
        assert(header_fields(h) =~= done + fields_from(h, 0).0);
        loop
            invariant
                reading_at(h, i as int, done),
                h == buf@,
                check == (|n: Seq<u8>, v: Seq<u8>| chunk_info_check(n, v)),
                first_error(done, check) is None,
                has_op == (last_value(done, FieldName::Op) is Some),
                version == as_u32(last_value(done, FieldName::Ver)),
                chunk_header_pos == as_u64(last_value(done, FieldName::ChunkPos)),
                start_time == as_time(last_value(done, FieldName::StartTime)),
                end_time == as_time(last_value(done, FieldName::EndTime)),
                connection_count == as_u32(last_value(done, FieldName::Count)),
            decreases h.len() - i,
        {
            let (next, n, v) = match parse_field(buf, i) {
                Ok(t) => t,
                Err(e) => {
                    proof {
                        lemma_read_fault(h, i as int, done);
                    }
                    return Err(e);
                },
            };
            let ghost f = (n@, v@);
            proof {
                lemma_read_field(h, i as int, done);
                lemma_first_error_push(done, f, check);
                lemma_last_value_push(done, f, FieldName::Op);
                lemma_last_value_push(done, f, FieldName::Ver);
                lemma_last_value_push(done, f, FieldName::ChunkPos);
                lemma_last_value_push(done, f, FieldName::StartTime);
                lemma_last_value_push(done, f, FieldName::EndTime);
                lemma_last_value_push(done, f, FieldName::Count);
            }
            let fault: Option<ParseError> = match field_name(n) {
                FieldName::Ver => match parse_le_u32(v) {
                    Ok(x) => {
                        version = Some(x);
                        None
                    },
                    Err(e) => Some(e),
                },
                FieldName::ChunkPos => match parse_le_u64(v) {
                    Ok(x) => {
                        chunk_header_pos = Some(x);
                        None
                    },
                    Err(e) => Some(e),
                },
                FieldName::StartTime => match Time::from(v) {
                    Ok(x) => {
                        start_time = Some(x);
                        None
                    },
                    Err(e) => Some(e),
                },
                FieldName::EndTime => match Time::from(v) {
                    Ok(x) => {
                        end_time = Some(x);
                        None
                    },
                    Err(e) => Some(e),
                },
                FieldName::Count => match parse_le_u32(v) {
                    Ok(x) => {
                        connection_count = Some(x);
                        None
                    },
                    Err(e) => Some(e),
                },
                FieldName::Op => {
                    has_op = true;
                    check_op(v, 6)
                },
                _ => Some(ParseError::UnexpectedField),
            };
            assert(fault == check(f.0, f.1));
            if let Some(e) = fault {
                proof {
                    lemma_check_fails(h, done, f, fields_after(h, next as int), check);
                }
                return Err(e);
            }
            proof {
                done = done.push(f);
            }
            if next >= buf.len() {
                if !has_op {
                    return Err(ParseError::MissingField);
                }
                return match (version, chunk_header_pos, start_time, end_time, connection_count) {
                    (
                        Some(version),
                        Some(chunk_header_pos),
                        Some(start_time),
                        Some(end_time),
                        Some(connection_count),
                    ) => Ok(
                        ChunkInfoHeader {
                            version,
                            chunk_header_pos,
                            start_time,
                            end_time,
                            connection_count,
                        },
                    ),
                    _ => Err(ParseError::MissingField),
                };
            }
            i = next;
        }
    }
}

/// One entry of a chunk-info record: how many messages of a connection
/// the chunk holds.
#[derive(Debug, Clone, Copy, PartialEq, Eq, Structural)]
pub struct ChunkInfoData {
    pub connection_id: u32,
    pub count: u32,
}

impl ChunkInfoData {
    /// The entry whose eight bytes are `b[i..i + 8]`.
    pub open spec fn at(b: Seq<u8>, i: int) -> ChunkInfoData {
        ChunkInfoData { connection_id: le_u32(b, i), count: le_u32(b, i + 4) }
    }

    /// Decodes an entry from its eight bytes.
    pub fn from(buf: &[u8]) -> (r: Result<ChunkInfoData, ParseError>)
        ensures
            buf@.len() >= 8 ==> r == Ok::<ChunkInfoData, ParseError>(ChunkInfoData::at(buf@, 0)),
            buf@.len() < 8 ==> r == Err::<ChunkInfoData, ParseError>(ParseError::BufferTooSmall),
    {
        match (parse_le_u32_at(buf, 0), parse_le_u32_at(buf, 4)) {
            (Ok(connection_id), Ok(count)) => Ok(ChunkInfoData { connection_id, count }),
            _ => Err(ParseError::BufferTooSmall),
        }
    }
}

/// The header of a connection record.
pub struct ConnectionHeader {
    pub connection_id: u32,
    pub topic: String,
}

pub open spec fn connection_header_check(n: Seq<u8>, v: Seq<u8>) -> Option<ParseError> {
    match kind_of(n) {
        FieldName::Topic => None,
        FieldName::Conn => width_check(v, 4),
        FieldName::Op => op_check(v, 7),
        _ => Some(ParseError::UnexpectedField),
    }
}

/// The connection id and the topic's bytes.
pub open spec fn connection_header_finish(fs: Seq<Field>) -> Result<(u32, Seq<u8>), ParseError> {
    if last_value(fs, FieldName::Op) is None {
        Err(ParseError::MissingField)
    } else {
        match (as_u32(last_value(fs, FieldName::Conn)), last_value(fs, FieldName::Topic)) {
            (Some(id), Some(topic)) => Ok((id, topic)),
            _ => Err(ParseError::MissingField),
        }
    }
}

pub open spec fn spec_connection_header(h: Seq<u8>) -> Result<(u32, Seq<u8>), ParseError> {
    decode_with(
        h,
        |n: Seq<u8>, v: Seq<u8>| connection_header_check(n, v),
        |fs: Seq<Field>| connection_header_finish(fs),
    )
}

impl ConnectionHeader {
    /// Decodes the header of a connection record.
    pub fn from(buf: &[u8]) -> (r: Result<ConnectionHeader, ParseError>)
        ensures
            match spec_connection_header(buf@) {
                Ok((id, topic)) => r matches Ok(c) && c.connection_id == id && c.topic@
                    == utf8_lossy(topic),
                Err(e) => r matches Err(e2) && e2 == e,
            },
    {
        let ghost h = buf@;
        let ghost check = |n: Seq<u8>, v: Seq<u8>| connection_header_check(n, v);
        let ghost mut done: Seq<Field> = Seq::empty();
        let mut i: usize = 0;
        let mut has_op = false;
        let mut topic: Option<String> = None;
        let mut connection_id: Option<u32> = None;
        assert(header_fields(h) =~= done + fields_from(h, 0).0);
        loop
            invariant
                reading_at(h, i as int, done),
                h == buf@,
                check == (|n: Seq<u8>, v: Seq<u8>| connection_header_check(n, v)),
                first_error(done, check) is None,
                has_op == (last_value(done, FieldName::Op) is Some),
                holds_text(topic, last_value(done, FieldName::Topic)),
                connection_id == as_u32(last_value(done, FieldName::Conn)),
            decreases h.len() - i,
        {
            let (next, n, v) = match parse_field(buf, i) {
                Ok(t) => t,
                Err(e) => {
                    proof {
                        lemma_read_fault(h, i as int, done);
                    }
                    return Err(e);
                },
            };
            let ghost f = (n@, v@);
            proof {
                lemma_read_field(h, i as int, done);
                lemma_first_error_push(done, f, check);
                lemma_last_value_push(done, f, FieldName::Op);
                lemma_last_value_push(done, f, FieldName::Topic);
                lemma_last_value_push(done, f, FieldName::Conn);
            }
            let fault: Option<ParseError> = match field_name(n) {
                FieldName::Topic => {
                    topic = Some(lossy_text(v));
                    None
                },
                FieldName::Conn => match parse_le_u32(v) {
                    Ok(x) => {
                        connection_id = Some(x);
                        None
                    },
                    Err(e) => Some(e),
                },
                FieldName::Op => {
                    has_op = true;
                    check_op(v, 7)
                },
                _ => Some(ParseError::UnexpectedField),
            };
            assert(fault == check(f.0, f.1));
            if let Some(e) = fault {
                proof {
                    lemma_check_fails(h, done, f, fields_after(h, next as int), check);
                }
                return Err(e);
            }
            proof {
                done = done.push(f);
            }
            if next >= buf.len() {
                if !has_op {
                    return Err(ParseError::MissingField);
                }
                return match (connection_id, topic) {
                    (Some(connection_id), Some(topic)) => Ok(
                        ConnectionHeader { connection_id, topic },
                    ),
                    _ => Err(ParseError::MissingField),
                };
            }
            i = next;
        }
    }
}

/// A connection of the bag: its topic, message type, and how its messages
/// were published.
#[derive(Debug, Clone)]
pub struct ConnectionData {
    pub connection_id: u32,
    pub topic: String,
    pub data_type: String,
    pub md5sum: String,
    pub message_definition: String,
    pub caller_id: Option<String>,
    pub latching: bool,
}

pub open spec fn connection_data_check(n: Seq<u8>, v: Seq<u8>) -> Option<ParseError> {
    match kind_of(n) {
        FieldName::Topic => None,
        FieldName::Type => None,
        FieldName::Md5sum => None,
        FieldName::MessageDefinition => None,
        FieldName::CallerId => None,
        FieldName::Latching => None,
        _ => Some(ParseError::UnexpectedField),
    }
}

/// What a connection record's data says of its connection.
pub struct ConnectionFields {
    pub data_type: Seq<u8>,
    pub md5sum: Seq<u8>,
    pub message_definition: Seq<u8>,
    pub caller_id: Option<Seq<u8>>,
    pub latching: bool,
}

pub open spec fn connection_data_finish(fs: Seq<Field>) -> Result<ConnectionFields, ParseError> {
    match (
        last_value(fs, FieldName::Type),
        last_value(fs, FieldName::Md5sum),
        last_value(fs, FieldName::MessageDefinition),
    ) {
        (Some(data_type), Some(md5sum), Some(message_definition)) => Ok(
            ConnectionFields {
                data_type,
                md5sum,
                message_definition,
                caller_id: last_value(fs, FieldName::CallerId),
                latching: match last_value(fs, FieldName::Latching) {
                    Some(v) => v == name("1"),
                    None => false,
                },
            },
        ),
        _ => Err(ParseError::MissingField),
    }
}

pub open spec fn spec_connection_data(h: Seq<u8>) -> Result<ConnectionFields, ParseError> {
    decode_with(
        h,
        |n: Seq<u8>, v: Seq<u8>| connection_data_check(n, v),
        |fs: Seq<Field>| connection_data_finish(fs),
    )
}

impl ConnectionData {
    /// The connection `c` that the record data `d` describes for the
    /// connection `id` on `topic`.
    pub open spec fn describes(c: ConnectionData, d: ConnectionFields, id: u32, topic: Seq<char>) -> bool {
        &&& c.connection_id == id
        &&& c.topic@ == topic
        &&& c.data_type@ == utf8_lossy(d.data_type)
        &&& c.md5sum@ == utf8_lossy(d.md5sum)
        &&& c.message_definition@ == utf8_lossy(d.message_definition)
        &&& holds_text(c.caller_id, d.caller_id)
        &&& c.latching == d.latching
    }

    /// Decodes the data of a connection record for the connection
    /// `connection_id` on `topic`.
    pub fn from(buf: &[u8], connection_id: u32, topic: String) -> (r: Result<ConnectionData, ParseError>)
        ensures
            match spec_connection_data(buf@) {
                Ok(d) => r matches Ok(c) && ConnectionData::describes(c, d, connection_id, topic@),
                Err(e) => r matches Err(e2) && e2 == e,
            },
    {
        let ghost h = buf@;
        let ghost check = |n: Seq<u8>, v: Seq<u8>| connection_data_check(n, v);
        let ghost mut done: Seq<Field> = Seq::empty();
        let mut i: usize = 0;
        let mut data_type: Option<String> = None;
        let mut md5sum: Option<String> = None;
        let mut message_definition: Option<String> = None;
        let mut caller_id: Option<String> = None;
        let mut latching = false;
        assert(header_fields(h) =~= done + fields_from(h, 0).0);
        loop
            invariant
                reading_at(h, i as int, done),
                h == buf@,
                check == (|n: Seq<u8>, v: Seq<u8>| connection_data_check(n, v)),
                first_error(done, check) is None,
                holds_text(data_type, last_value(done, FieldName::Type)),
                holds_text(md5sum, last_value(done, FieldName::Md5sum)),
                holds_text(message_definition, last_value(done, FieldName::MessageDefinition)),
                holds_text(caller_id, last_value(done, FieldName::CallerId)),
                latching == match last_value(done, FieldName::Latching) {
                    Some(v) => v == name("1"),
                    None => false,
                },
            decreases h.len() - i,
        {
            let (next, n, v) = match parse_field(buf, i) {
                Ok(t) => t,
                Err(e) => {
                    proof {
                        lemma_read_fault(h, i as int, done);
                    }
                    return Err(e);
                },
            };
            let ghost f = (n@, v@);
            proof {
                lemma_read_field(h, i as int, done);
                lemma_first_error_push(done, f, check);
                lemma_last_value_push(done, f, FieldName::Type);
                lemma_last_value_push(done, f, FieldName::Md5sum);
                lemma_last_value_push(done, f, FieldName::MessageDefinition);
                lemma_last_value_push(done, f, FieldName::CallerId);
                lemma_last_value_push(done, f, FieldName::Latching);
            }
            let fault: Option<ParseError> = match field_name(n) {
                FieldName::Topic => None,
                FieldName::Type => {
                    data_type = Some(lossy_text(v));
                    None
                },
                FieldName::Md5sum => {
                    md5sum = Some(lossy_text(v));
                    None
                },
                FieldName::MessageDefinition => {
                    message_definition = Some(lossy_text(v));
                    None
                },
                FieldName::CallerId => {
                    caller_id = Some(lossy_text(v));
                    None
                },
                FieldName::Latching => {
                    latching = is_name(v, "1");
                    None
                },
                _ => Some(ParseError::UnexpectedField),
            };
            assert(fault == check(f.0, f.1));
            if let Some(e) = fault {
                proof {
                    lemma_check_fails(h, done, f, fields_after(h, next as int), check);
                }
                return Err(e);
            }
            proof {
                done = done.push(f);
            }
            if next >= buf.len() {
                return match (data_type, md5sum, message_definition) {
                    (Some(data_type), Some(md5sum), Some(message_definition)) => Ok(
                        ConnectionData {
                            connection_id,
                            topic,
                            data_type,
                            md5sum,
                            message_definition,
                            caller_id,
                            latching,
                        },
                    ),
                    _ => Err(ParseError::MissingField),
                };
            }
            i = next;
        }
    }
}

/// The header of an index record: the connection whose messages in the
/// preceding chunk it lists, and how many there are.
#[derive(Debug, Clone, Copy, PartialEq, Eq, Structural)]
pub struct IndexDataHeader {
    pub version: u32,
    pub connection_id: u32,
    pub count: u32,
}

pub open spec fn index_header_check(n: Seq<u8>, v: Seq<u8>) -> Option<ParseError> {
    match kind_of(n) {
        FieldName::Ver => width_check(v, 4),
        FieldName::Conn => width_check(v, 4),
        FieldName::Count => width_check(v, 4),
        FieldName::Op => op_check(v, 4),
        _ => Some(ParseError::UnexpectedField),
    }
}

pub open spec fn index_header_finish(fs: Seq<Field>) -> Result<IndexDataHeader, ParseError> {
    if last_value(fs, FieldName::Op) is None {
        Err(ParseError::MissingField)
    } else {
        match (
            as_u32(last_value(fs, FieldName::Ver)),
            as_u32(last_value(fs, FieldName::Conn)),
            as_u32(last_value(fs, FieldName::Count)),
        ) {
            (Some(version), Some(connection_id), Some(count)) => if version != 1 {
                Err(ParseError::UnsupportedVersion)
            } else {
                Ok(IndexDataHeader { version, connection_id, count })
            },
            _ => Err(ParseError::MissingField),
        }
    }
}

pub open spec fn spec_index_header(h: Seq<u8>) -> Result<IndexDataHeader, ParseError> {
    decode_with(
        h,
        |n: Seq<u8>, v: Seq<u8>| index_header_check(n, v),
        |fs: Seq<Field>| index_header_finish(fs),
    )
}

impl IndexDataHeader {
    /// Decodes the header of an index record.
    pub fn from(buf: &[u8]) -> (r: Result<IndexDataHeader, ParseError>)
        ensures
            r == spec_index_header(buf@),
    {
        let ghost h = buf@;
        let ghost check = |n: Seq<u8>, v: Seq<u8>| index_header_check(n, v);
        let ghost mut done: Seq<Field> = Seq::empty();
        let mut i: usize = 0;
        let mut has_op = false;
        let mut version: Option<u32> = None;
        let mut connection_id: Option<u32> = None;
        let mut count: Option<u32> = None;
        assert(header_fields(h) =~= done + fields_from(h, 0).0);
        loop
            invariant
                reading_at(h, i as int, done),
                h == buf@,
                check == (|n: Seq<u8>, v: Seq<u8>| index_header_check(n, v)),
                first_error(done, check) is None,
                has_op == (last_value(done, FieldName::Op) is Some),
                version == as_u32(last_value(done, FieldName::Ver)),
                connection_id == as_u32(last_value(done, FieldName::Conn)),
                count == as_u32(last_value(done, FieldName::Count)),
            decreases h.len() - i,
        {
            let (next, n, v) = match parse_field(buf, i) {
                Ok(t) => t,
                Err(e) => {
                    proof {
                        lemma_read_fault(h, i as int, done);
                    }
                    return Err(e);
                },
            };
            let ghost f = (n@, v@);
            proof {
                lemma_read_field(h, i as int, done);
                lemma_first_error_push(done, f, check);
                lemma_last_value_push(done, f, FieldName::Op);
                lemma_last_value_push(done, f, FieldName::Ver);
                lemma_last_value_push(done, f, FieldName::Conn);
                lemma_last_value_push(done, f, FieldName::Count);
            }
            let fault: Option<ParseError> = match field_name(n) {
                FieldName::Ver => match parse_le_u32(v) {
                    Ok(x) => {
                        version = Some(x);
                        None
                    },
                    Err(e) => Some(e),
                },
                FieldName::Conn => match parse_le_u32(v) {
                    Ok(x) => {
                        connection_id = Some(x);
                        None
                    },
                    Err(e) => Some(e),
                },
                FieldName::Count => match parse_le_u32(v) {
                    Ok(x) => {
                        count = Some(x);
                        None
                    },
                    Err(e) => Some(e),
                },
                FieldName::Op => {
                    has_op = true;
                    check_op(v, 4)
                },
                _ => Some(ParseError::UnexpectedField),
            };
            assert(fault == check(f.0, f.1));
            if let Some(e) = fault {
                proof {
                    lemma_check_fails(h, done, f, fields_after(h, next as int), check);
                }
                return Err(e);
            }
            proof {
                done = done.push(f);
            }
            if next >= buf.len() {
                if !has_op {
                    return Err(ParseError::MissingField);
                }
                return match (version, connection_id, count) {
                    (Some(version), Some(connection_id), Some(count)) => if version != 1 {
                        Err(ParseError::UnsupportedVersion)
                    } else {
                        Ok(IndexDataHeader { version, connection_id, count })
                    },
                    _ => Err(ParseError::MissingField),
                };
            }
            i = next;
        }
    }
}

/// Where one message lies: its connection, its chunk (by header position and
/// by number), its time, and the offset of its record in the chunk's
/// uncompressed data.
#[derive(Debug, Clone, Copy, PartialEq, Eq, Structural)]
pub struct IndexData {
    pub conn_id: u32,
    pub chunk_header_pos: u64,
    pub chunk_index: usize,
    pub time: Time,
    pub offset: u32,
}

impl IndexData {
    /// The entry whose twelve bytes are `b[i..i + 12]`.
    pub open spec fn at(b: Seq<u8>, i: int, chunk_header_pos: u64, chunk_index: usize, conn_id: u32) -> IndexData {
        IndexData {
            conn_id,
            chunk_header_pos,
            chunk_index,
            time: Time::from_bytes_at(b, i),
            offset: le_u32(b, i + 8),
        }
    }

    /// Decodes an index entry from its twelve bytes: time, then offset.
    pub fn from(buf: &[u8], chunk_header_pos: u64, chunk_index: usize, conn_id: u32) -> (r: Result<IndexData, ParseError>)
        ensures
            buf@.len() >= 12 ==> r == Ok::<IndexData, ParseError>(
                IndexData::at(buf@, 0, chunk_header_pos, chunk_index, conn_id),
            ),
            buf@.len() < 12 ==> r == Err::<IndexData, ParseError>(ParseError::BufferTooSmall),
    {
        if buf.len() < 12 {
            return Err(ParseError::BufferTooSmall);
        }
        match (Time::from(buf), parse_le_u32_at(buf, 8)) {
            (Ok(time), Ok(offset)) => Ok(IndexData { conn_id, chunk_header_pos, chunk_index, time, offset }),
            _ => Err(ParseError::BufferTooSmall),
        }
    }
}

/// The header of a message record: its connection and its time.
#[derive(Debug, Clone, Copy, PartialEq, Eq, Structural)]
pub struct MessageDataHeader {
    pub conn: u32,
    pub time: Time,
}

pub open spec fn message_header_check(n: Seq<u8>, v: Seq<u8>) -> Option<ParseError> {
    match kind_of(n) {
        FieldName::Conn => width_check(v, 4),
        FieldName::Time => width_check(v, 8),
        FieldName::Op => op_check(v, 2),
        _ => Some(ParseError::UnexpectedField),
    }
}

pub open spec fn message_header_finish(fs: Seq<Field>) -> Result<MessageDataHeader, ParseError> {
    if last_value(fs, FieldName::Op) is None {
        Err(ParseError::MissingField)
    } else {
        match (as_u32(last_value(fs, FieldName::Conn)), as_time(last_value(fs, FieldName::Time))) {
            (Some(conn), Some(time)) => Ok(MessageDataHeader { conn, time }),
            _ => Err(ParseError::MissingField),
        }
    }
}

pub open spec fn spec_message_header(h: Seq<u8>) -> Result<MessageDataHeader, ParseError> {
    decode_with(
        h,
        |n: Seq<u8>, v: Seq<u8>| message_header_check(n, v),
        |fs: Seq<Field>| message_header_finish(fs),
    )
}

impl MessageDataHeader {
    /// Decodes the header of a message record.
    pub fn from(buf: &[u8]) -> (r: Result<MessageDataHeader, ParseError>)
        ensures
            r == spec_message_header(buf@),
    {
        let ghost h = buf@;
        let ghost check = |n: Seq<u8>, v: Seq<u8>| message_header_check(n, v);
        let ghost mut done: Seq<Field> = Seq::empty();
        let mut i: usize = 0;
        let mut has_op = false;
        let mut conn: Option<u32> = None;
        let mut time: Option<Time> = None;
        assert(header_fields(h) =~= done + fields_from(h, 0).0);
        loop
            invariant
                reading_at(h, i as int, done),
                h == buf@,
                check == (|n: Seq<u8>, v: Seq<u8>| message_header_check(n, v)),
                first_error(done, check) is None,
                has_op == (last_value(done, FieldName::Op) is Some),
                conn == as_u32(last_value(done, FieldName::Conn)),
                time == as_time(last_value(done, FieldName::Time)),
            decreases h.len() - i,
        {
            let (next, n, v) = match parse_field(buf, i) {
                Ok(t) => t,
                Err(e) => {
                    proof {
                        lemma_read_fault(h, i as int, done);
                    }
                    return Err(e);
                },
            };
            let ghost f = (n@, v@);
            proof {
                lemma_read_field(h, i as int, done);
                lemma_first_error_push(done, f, check);
                lemma_last_value_push(done, f, FieldName::Op);
                lemma_last_value_push(done, f, FieldName::Conn);
                lemma_last_value_push(done, f, FieldName::Time);
            }
            let fault: Option<ParseError> = match field_name(n) {
                FieldName::Conn => match parse_le_u32(v) {
                    Ok(x) => {
                        conn = Some(x);
                        None
                    },
                    Err(e) => Some(e),
                },
                FieldName::Time => match Time::from(v) {
                    Ok(x) => {
                        time = Some(x);
                        None
                    },
                    Err(e) => Some(e),
                },
                FieldName::Op => {
                    has_op = true;
                    check_op(v, 2)
                },
                _ => Some(ParseError::UnexpectedField),
            };
            assert(fault == check(f.0, f.1));
            if let Some(e) = fault {
                proof {
                    lemma_check_fails(h, done, f, fields_after(h, next as int), check);
                }
                return Err(e);
            }
            proof {
                done = done.push(f);
            }
            if next >= buf.len() {
                if !has_op {
                    return Err(ParseError::MissingField);
                }
                return match (conn, time) {
                    (Some(conn), Some(time)) => Ok(MessageDataHeader { conn, time }),
                    _ => Err(ParseError::MissingField),
                };
            }
            i = next;
        }
    }
}

/// Checks that an `op` value holds `code`.
pub fn check_op(v: &[u8], code: u8) -> (r: Option<ParseError>)
    ensures
        r == op_check(v@, code),
{
    match parse_u8(v) {
        Ok(op) => if op != code {
            Some(ParseError::UnexpectedOpCode)
        } else {
            None
        },
        Err(e) => Some(e),
    }
}

} // verus!
