//! The field list that heads every record: a sequence of
//! `u32 field_len | name "=" value` entries.
use vstd::prelude::*;
use vstd::string::StringSliceAdditionalSpecFns;

use crate::errors::ParseError;
use crate::parsing::{le_u32, parse_le_u32_at};

verus! {

/// A field as a pair of its name and its value.
pub type Field = (Seq<u8>, Seq<u8>);

/// `k` is the position of the first `=` in `b`.
pub open spec fn is_first_sep(b: Seq<u8>, k: int) -> bool {
    &&& 0 <= k < b.len()
    &&& b[k] == 61u8
    &&& forall|j: int| 0 <= j < k ==> b[j] != 61u8
}

/// The field that starts at `i` of header `h`, with the position just past it.
pub open spec fn field_at(h: Seq<u8>, i: int) -> Result<(int, Field), ParseError> {
    if i < 0 || i + 4 > h.len() {
        Err(ParseError::BufferTooSmall)
    } else if i + 4 + le_u32(h, i) > h.len() {
        Err(ParseError::BufferTooSmall)
    } else {
        let end = i + 4 + le_u32(h, i);
        let body = h.subrange(i + 4, end);
        if exists|k: int| is_first_sep(body, k) {
            let k = choose|k: int| is_first_sep(body, k);
            Ok((end, (body.subrange(0, k), body.subrange(k + 1, body.len() as int))))
        } else {
            Err(ParseError::MissingFieldSeparator)
        }
    }
}

/// The fields of header `h` from position `i` on, read until the header is
/// exhausted, and the fault that stopped the reading, if any. Reading
/// always takes at least one field.
pub open spec fn fields_from(h: Seq<u8>, i: int) -> (Seq<Field>, Option<ParseError>)
    decreases h.len() - i,
{
    match field_at(h, i) {
        Err(e) => (Seq::empty(), Some(e)),
        Ok((next, f)) => {
            if next >= h.len() || next <= i {
                (seq![f], None)
            } else {
                let rest = fields_from(h, next);
                (seq![f] + rest.0, rest.1)
            }
        },
    }
}

/// The fields of header `h`.
pub open spec fn header_fields(h: Seq<u8>) -> Seq<Field> {
    fields_from(h, 0).0
}

/// The fault that stopped reading the fields of `h`, if any.
pub open spec fn header_fault(h: Seq<u8>) -> Option<ParseError> {
    fields_from(h, 0).1
}

/// The first fault that `check` finds among `fs`, taken in order.
pub open spec fn first_error(
    fs: Seq<Field>,
    check: spec_fn(Seq<u8>, Seq<u8>) -> Option<ParseError>,
) -> Option<ParseError>
    decreases fs.len(),
{
    if fs.len() == 0 {
        None
    } else {
        match first_error(fs.drop_last(), check) {
            Some(e) => Some(e),
            None => check(fs.last().0, fs.last().1),
        }
    }
}

/// The value of the last field of `fs` named `name`.
pub open spec fn last_value(fs: Seq<Field>, name: FieldName) -> Option<Seq<u8>>
    decreases fs.len(),
{
    if fs.len() == 0 {
        None
    } else if kind_of(fs.last().0) == name {
        Some(fs.last().1)
    } else {
        last_value(fs.drop_last(), name)
    }
}

/// The value of the first field of `fs` named `name`.
pub open spec fn first_value(fs: Seq<Field>, name: FieldName) -> Option<Seq<u8>>
    decreases fs.len(),
{
    if fs.len() == 0 {
        None
    } else {
        match first_value(fs.drop_last(), name) {
            Some(v) => Some(v),
            None => if kind_of(fs.last().0) == name {
                Some(fs.last().1)
            } else {
                None
            },
        }
    }
}

/// The outcome of decoding a header whose fields are checked by `check`
/// and assembled by `finish`: the first fault of a field that was read
/// wins, then the fault that stopped the reading, then `finish`.
pub open spec fn decode_with<T>(
    h: Seq<u8>,
    check: spec_fn(Seq<u8>, Seq<u8>) -> Option<ParseError>,
    finish: spec_fn(Seq<Field>) -> Result<T, ParseError>,
) -> Result<T, ParseError> {
    match first_error(header_fields(h), check) {
        Some(e) => Err(e),
        None => match header_fault(h) {
            Some(e) => Err(e),
            None => finish(header_fields(h)),
        },
    }
}

pub proof fn lemma_fields_step(h: Seq<u8>, i: int)
    requires
        field_at(h, i) is Ok,
        field_at(h, i)->Ok_0.0 < h.len(),
    ensures
        field_at(h, i)->Ok_0.0 > i,
        fields_from(h, i).0 == seq![field_at(h, i)->Ok_0.1] + fields_from(
            h,
            field_at(h, i)->Ok_0.0,
        ).0,
        fields_from(h, i).1 == fields_from(h, field_at(h, i)->Ok_0.0).1,
{
}

pub proof fn lemma_first_error_push(
    fs: Seq<Field>,
    f: Field,
    check: spec_fn(Seq<u8>, Seq<u8>) -> Option<ParseError>,
)
    ensures
        first_error(fs.push(f), check) == match first_error(fs, check) {
            Some(e) => Some(e),
            None => check(f.0, f.1),
        },
{
    assert(fs.push(f).drop_last() =~= fs);
}

pub proof fn lemma_last_value_push(fs: Seq<Field>, f: Field, name: FieldName)
    ensures
        last_value(fs.push(f), name) == if kind_of(f.0) == name {
            Some(f.1)
        } else {
            last_value(fs, name)
        },
{
    assert(fs.push(f).drop_last() =~= fs);
}

pub proof fn lemma_first_value_push(fs: Seq<Field>, f: Field, name: FieldName)
    ensures
        first_value(fs.push(f), name) == match first_value(fs, name) {
            Some(v) => Some(v),
            None => if kind_of(f.0) == name {
                Some(f.1)
            } else {
                None
            },
        },
{
    assert(fs.push(f).drop_last() =~= fs);
}

/// A fault found in the first fields stays the first fault of any longer list.
pub proof fn lemma_first_error_append(
    a: Seq<Field>,
    b: Seq<Field>,
    check: spec_fn(Seq<u8>, Seq<u8>) -> Option<ParseError>,
)
    requires
        first_error(a, check) is Some,
    ensures
        first_error(a + b, check) == first_error(a, check),
    decreases b.len(),
{
    if b.len() == 0 {
        assert(a + b =~= a);
    } else {
        lemma_first_error_append(a, b.drop_last(), check);
        assert((a + b).drop_last() =~= a + b.drop_last());
    }
}

/// A field found in the first fields stays the first of any longer list.
pub proof fn lemma_first_value_append(a: Seq<Field>, b: Seq<Field>, name: FieldName)
    requires
        first_value(a, name) is Some,
    ensures
        first_value(a + b, name) == first_value(a, name),
    decreases b.len(),
{
    if b.len() == 0 {
        assert(a + b =~= a);
    } else {
        lemma_first_value_append(a, b.drop_last(), name);
        assert((a + b).drop_last() =~= a + b.drop_last());
    }
}

/// Returns the position of the first `=` in `buf`.
pub fn field_sep_index(buf: &[u8]) -> (r: Result<usize, ParseError>)
    ensures
        match r {
            Ok(k) => is_first_sep(buf@, k as int),
            Err(e) => e == ParseError::MissingFieldSeparator && forall|k: int|
                0 <= k < buf@.len() ==> buf@[k] != 61u8,
        },
{
    let mut i: usize = 0;
    while i < buf.len()
        invariant
            i <= buf@.len(),
            forall|j: int| 0 <= j < i ==> buf@[j] != 61u8,
        decreases buf.len() - i,
    {
        if buf[i] == 61u8 {
            return Ok(i);
        }
        i = i + 1;
    }
    Err(ParseError::MissingFieldSeparator)
}

/// Reads the field of header `buf` that starts at `i`: returns the position
/// just past it, its name and its value.
pub fn parse_field(buf: &[u8], i: usize) -> (r: Result<(usize, &[u8], &[u8]), ParseError>)
    ensures
        match field_at(buf@, i as int) {
            Ok((next, f)) => r matches Ok((n, name, value)) && n == next && name@ == f.0
                && value@ == f.1,
            Err(e) => r == Err::<(usize, &[u8], &[u8]), ParseError>(e),
        },
{
    if i > buf.len() || buf.len() - i < 4 {
        return Err(ParseError::BufferTooSmall);
    }
    let field_len = match parse_le_u32_at(buf, i) {
        Ok(l) => l as usize,
        Err(e) => return Err(e),
    };
    let start = i + 4;
    if buf.len() - start < field_len {
        return Err(ParseError::BufferTooSmall);
    }
    let end = start + field_len;
    let body = &buf[start..end];
    assert(body@ == buf@.subrange(start as int, end as int));
    let k = match field_sep_index(body) {
        Ok(k) => k,
        Err(e) => {
            assert(!exists|k: int| is_first_sep(body@, k));
            return Err(e);
        },
    };
    proof {
        let c = choose|c: int| is_first_sep(body@, c);
        assert(is_first_sep(body@, c));
        if c < k {
            assert(body@[c] != 61u8);
        } else if c > k {
            assert(body@[k as int] != 61u8);
        }
        assert(c == k);
    }
    let name = &buf[start..start + k];
    let value = &buf[start + k + 1..end];
    assert(name@ =~= body@.subrange(0, k as int));
    assert(value@ =~= body@.subrange(k + 1, body@.len() as int));
    Ok((end, name, value))
}

/// Whether `a` and `b` hold the same bytes.
pub fn bytes_eq(a: &[u8], b: &[u8]) -> (r: bool)
    ensures
        r == (a@ == b@),
{
    if a.len() != b.len() {
        return false;
    }
    let mut i: usize = 0;
    while i < a.len()
        invariant
            a@.len() == b@.len(),
            i <= a@.len(),
            forall|j: int| 0 <= j < i ==> a@[j] == b@[j],
        decreases a.len() - i,
    {
        if a[i] != b[i] {
            return false;
        }
        i = i + 1;
    }
    assert(a@ =~= b@);
    true
}

/// The field names that bag records use.
#[derive(Debug, Clone, Copy, PartialEq, Eq, Structural)]
pub enum FieldName {
    Op,
    IndexPos,
    ConnCount,
    ChunkCount,
    Compression,
    Size,
    Ver,
    ChunkPos,
    StartTime,
    EndTime,
    Count,
    Topic,
    Conn,
    Type,
    Md5sum,
    MessageDefinition,
    CallerId,
    Latching,
    Time,
    Other,
}

/// The field name that the bytes `n` spell.
pub open spec fn kind_of(n: Seq<u8>) -> FieldName {
    if n == name("op") {
        FieldName::Op
    } else if n == name("index_pos") {
        FieldName::IndexPos
    } else if n == name("conn_count") {
        FieldName::ConnCount
    } else if n == name("chunk_count") {
        FieldName::ChunkCount
    } else if n == name("compression") {
        FieldName::Compression
    } else if n == name("size") {
        FieldName::Size
    } else if n == name("ver") {
        FieldName::Ver
    } else if n == name("chunk_pos") {
        FieldName::ChunkPos
    } else if n == name("start_time") {
        FieldName::StartTime
    } else if n == name("end_time") {
        FieldName::EndTime
    } else if n == name("count") {
        FieldName::Count
    } else if n == name("topic") {
        FieldName::Topic
    } else if n == name("conn") {
        FieldName::Conn
    } else if n == name("type") {
        FieldName::Type
    } else if n == name("md5sum") {
        FieldName::Md5sum
    } else if n == name("message_definition") {
        FieldName::MessageDefinition
    } else if n == name("callerid") {
        FieldName::CallerId
    } else if n == name("latching") {
        FieldName::Latching
    } else if n == name("time") {
        FieldName::Time
    } else {
        FieldName::Other
    }
}

/// Tells which field the name `n` spells.
pub fn field_name(n: &[u8]) -> (r: FieldName)
    ensures
        r == kind_of(n@),
{
    if is_name(n, "op") {
        FieldName::Op
    } else if is_name(n, "index_pos") {
        FieldName::IndexPos
    } else if is_name(n, "conn_count") {
        FieldName::ConnCount
    } else if is_name(n, "chunk_count") {
        FieldName::ChunkCount
    } else if is_name(n, "compression") {
        FieldName::Compression
    } else if is_name(n, "size") {
        FieldName::Size
    } else if is_name(n, "ver") {
        FieldName::Ver
    } else if is_name(n, "chunk_pos") {
        FieldName::ChunkPos
    } else if is_name(n, "start_time") {
        FieldName::StartTime
    } else if is_name(n, "end_time") {
        FieldName::EndTime
    } else if is_name(n, "count") {
        FieldName::Count
    } else if is_name(n, "topic") {
        FieldName::Topic
    } else if is_name(n, "conn") {
        FieldName::Conn
    } else if is_name(n, "type") {
        FieldName::Type
    } else if is_name(n, "md5sum") {
        FieldName::Md5sum
    } else if is_name(n, "message_definition") {
        FieldName::MessageDefinition
    } else if is_name(n, "callerid") {
        FieldName::CallerId
    } else if is_name(n, "latching") {
        FieldName::Latching
    } else if is_name(n, "time") {
        FieldName::Time
    } else {
        FieldName::Other
    }
}

/// The bytes of the field name `s`.
pub open spec fn name(s: &str) -> Seq<u8> {
    s.spec_bytes()
}

/// Whether field name `n` is `s`.
pub fn is_name(n: &[u8], s: &str) -> (r: bool)
    ensures
        r == (n@ == name(s)),
{
    bytes_eq(n, s.as_bytes())
}

/// The text of `b`, read as UTF-8 with each invalid sequence replaced by
/// U+FFFD.
pub uninterp spec fn utf8_lossy(b: Seq<u8>) -> Seq<char>;

/// Relies on `String::from_utf8_lossy`, whose text depends on the bytes alone.
#[verifier::external_body]
pub(crate) fn lossy_text(b: &[u8]) -> (r: String)
    ensures
        r@ == utf8_lossy(b@),
{
    String::from_utf8_lossy(b).into_owned()
}

} // verus!
