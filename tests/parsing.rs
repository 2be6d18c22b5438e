use frost::fields::{field_sep_index, parse_field};
use frost::parsing::{get_lengthed_bytes, parse_le_u32, parse_le_u32_at, parse_le_u64, parse_le_u64_at, parse_u8, parse_u8_at};
use frost::records::{
    BagHeader, ChunkInfoData, ChunkInfoHeader, ConnectionHeader, IndexData, IndexDataHeader,
    MessageDataHeader, OpCode,
};
use frost::time::Time;
use frost::query::Query;
use itertools::{assert_equal, sorted};
use std::collections::{HashMap, HashSet};
use frost::{ErrorKind, ParseError};

fn field(name: &str, value: &[u8]) -> Vec<u8> {
    let mut out = Vec::new();
    let len = (name.len() + 1 + value.len()) as u32;
    out.extend_from_slice(&len.to_le_bytes());
    out.extend_from_slice(name.as_bytes());
    out.push(b'=');
    out.extend_from_slice(value);
    out
}

#[test]
fn test_version_check() {
    let mut bytes = b"#ROSBAG V2.0\n".to_vec();
    bytes.extend_from_slice(&[0u8; 8]);
    assert!(frost::version_check(&bytes).is_ok());
}

#[test]
fn version_check() {
    let mut bytes = b"#ROSBAG V2.0\n".to_vec();
    bytes.extend_from_slice(&[4u8, 0, 0, 0]);
    assert!(frost::version_check(&bytes).is_ok())
}

#[test]
fn test_contruction_with_topics() {
    let query = Query::new().with_topics(&["/chatter", "/array"]);
    assert_equal(sorted(query.topics.unwrap()), ["/array", "/chatter"]);
    assert_eq!(query.start_time, None);
    assert_eq!(query.end_time, None);

    let query = Query::new().with_topics(&["/chatter", "/array"]);
    assert_equal(sorted(query.topics.unwrap()), ["/array", "/chatter"]);
    assert_eq!(query.start_time, None);
    assert_eq!(query.end_time, None);

    let topics: HashSet<&str> = HashSet::from_iter(["/chatter", "/array"]);
    let topics: Vec<&str> = topics.into_iter().collect();
    let query = Query::new().with_topics(&topics);
    assert_equal(sorted(query.topics.unwrap()), ["/array", "/chatter"]);
    assert_eq!(query.start_time, None);
    assert_eq!(query.end_time, None);

    let topics: HashMap<&str, u32> = HashMap::from_iter([("/chatter", 0), ("/array", 0)]);
    let keys: Vec<&str> = topics.keys().copied().collect();
    let query = Query::new().with_topics(&keys);
    assert_equal(sorted(query.topics.unwrap()), ["/array", "/chatter"]);
    assert_eq!(query.start_time, None);
    assert_eq!(query.end_time, None);

    let topics = vec!["/chatter", "/array"];
    let query = Query::new().with_topics(&topics);
    assert_equal(sorted(query.topics.unwrap()), ["/array", "/chatter"]);

    let query = Query::new().with_topics(&topics);
    assert_equal(sorted(query.topics.unwrap()), ["/array", "/chatter"]);
}

#[test]
fn lib_test_field_sep_position() {
    let buf = b"hello=banana";
    assert_eq!(field_sep_index(buf).unwrap(), 5);
    assert_eq!(field_sep_index(&buf[2..8]).unwrap(), 3);

    let buf = b"theresnosep";
    assert!(field_sep_index(buf).is_err());
}

#[test]
fn version_check_rejects_other_magic() {
    let err = frost::version_check(b"not a bag\n\n\n\n").unwrap_err();
    assert_eq!(*err.kind(), ErrorKind::NotARosbag);
    let err = frost::version_check(b"#ROSBAG").unwrap_err();
    assert_eq!(*err.kind(), ErrorKind::NotARosbag);
    assert_eq!(frost::version_check(b"#ROSBAG V2.0\n").unwrap(), "2.0");
}

#[test]
fn little_endian_integers() {
    let buf = [0x78u8, 0x56, 0x34, 0x12, 0xff, 0, 0, 0, 1];
    assert_eq!(parse_u8(&buf).unwrap(), 0x78);
    assert_eq!(parse_u8_at(&buf, 8).unwrap(), 1);
    assert_eq!(parse_u8_at(&buf, 9), Err(ParseError::BufferTooSmall));
    assert_eq!(parse_le_u32(&buf).unwrap(), 0x1234_5678);
    assert_eq!(parse_le_u32_at(&buf, 4).unwrap(), 0xff);
    assert_eq!(parse_le_u32_at(&buf, 6), Err(ParseError::BufferTooSmall));
    assert_eq!(parse_le_u64(&buf).unwrap(), 0xff_1234_5678);
    assert_eq!(parse_le_u64_at(&buf, 1).unwrap(), 0x0100_0000_ff12_3456);
    assert_eq!(parse_le_u64_at(&buf, 2), Err(ParseError::BufferTooSmall));
    assert_eq!(parse_le_u32(&[1, 2, 3]), Err(ParseError::BufferTooSmall));
}

#[test]
fn lengthed_bytes() {
    let buf = [3u8, 0, 0, 0, 7, 8, 9, 10];
    let (v, next) = get_lengthed_bytes(&buf, 0).unwrap();
    assert_eq!(v, vec![7, 8, 9]);
    assert_eq!(next, 7);
    assert_eq!(get_lengthed_bytes(&buf, 4), Err(ParseError::BufferTooSmall));
    assert_eq!(get_lengthed_bytes(&[9, 0, 0, 0, 1], 0), Err(ParseError::BufferTooSmall));
}

#[test]
fn fields_split_on_first_separator() {
    let buf = field("topic", b"a=b");
    let (next, name, value) = parse_field(&buf, 0).unwrap();
    assert_eq!(next, buf.len());
    assert_eq!(name, b"topic");
    assert_eq!(value, b"a=b");
    let mut bad = 4u32.to_le_bytes().to_vec();
    bad.extend_from_slice(b"abcd");
    assert_eq!(parse_field(&bad, 0).unwrap_err(), ParseError::MissingFieldSeparator);
    assert_eq!(parse_field(&bad[..6], 0).unwrap_err(), ParseError::BufferTooSmall);
}

#[test]
fn op_codes() {
    assert_eq!(OpCode::from(2), Ok(OpCode::MessageData));
    assert_eq!(OpCode::from(3), Ok(OpCode::BagHeader));
    assert_eq!(OpCode::from(4), Ok(OpCode::IndexDataHeader));
    assert_eq!(OpCode::from(5), Ok(OpCode::ChunkHeader));
    assert_eq!(OpCode::from(6), Ok(OpCode::ChunkInfoHeader));
    assert_eq!(OpCode::from(7), Ok(OpCode::ConnectionHeader));
    assert_eq!(OpCode::from(1), Err(ParseError::InvalidOpCode));
    assert_eq!(OpCode::from(8), Err(ParseError::InvalidOpCode));
}

#[test]
fn bag_header_fields() {
    let mut h = field("index_pos", &1234u64.to_le_bytes());
    h.extend(field("conn_count", &3u32.to_le_bytes()));
    h.extend(field("chunk_count", &2u32.to_le_bytes()));
    h.extend(field("op", &[3]));
    let bh = BagHeader::from(&h).unwrap();
    assert_eq!(bh, BagHeader { index_pos: 1234, conn_count: 3, chunk_count: 2 });

    let mut wrong_op = h.clone();
    wrong_op.extend(field("op", &[5]));
    assert_eq!(BagHeader::from(&wrong_op), Err(ParseError::UnexpectedOpCode));

    let mut extra = h.clone();
    extra.extend(field("colour", b"red"));
    assert_eq!(BagHeader::from(&extra), Err(ParseError::UnexpectedField));

    let missing = field("index_pos", &1234u64.to_le_bytes());
    assert_eq!(BagHeader::from(&missing), Err(ParseError::MissingField));

    let short = field("index_pos", &[1, 2, 3]);
    assert_eq!(BagHeader::from(&short), Err(ParseError::BufferTooSmall));

    assert_eq!(BagHeader::from(&[]), Err(ParseError::BufferTooSmall));
}

#[test]
fn later_field_overrides_earlier() {
    let mut h = field("conn", &1u32.to_le_bytes());
    h.extend(field("time", &[5, 0, 0, 0, 6, 0, 0, 0]));
    h.extend(field("conn", &9u32.to_le_bytes()));
    h.extend(field("op", &[2]));
    let m = MessageDataHeader::from(&h).unwrap();
    assert_eq!(m.conn, 9);
    assert_eq!(m.time, Time { secs: 5, nsecs: 6 });
}

#[test]
fn fixed_size_entries() {
    let e = ChunkInfoData::from(&[1, 0, 0, 0, 42, 0, 0, 0]).unwrap();
    assert_eq!(e.connection_id, 1);
    assert_eq!(e.count, 42);
    assert_eq!(ChunkInfoData::from(&[1, 0, 0]), Err(ParseError::BufferTooSmall));
    let bytes = [7u8, 0, 0, 0, 8, 0, 0, 0, 100, 0, 0, 0];
    let i = IndexData::from(&bytes, 500, 2, 3).unwrap();
    assert_eq!(i.time, Time { secs: 7, nsecs: 8 });
    assert_eq!(i.offset, 100);
    assert_eq!(i.chunk_header_pos, 500);
    assert_eq!(i.chunk_index, 2);
    assert_eq!(i.conn_id, 3);
    assert_eq!(IndexData::from(&bytes[..11], 0, 0, 0), Err(ParseError::BufferTooSmall));
}

#[test]
fn topics_are_read_as_lossy_utf8() {
    let mut h = field("topic", b"/chatter");
    h.extend(field("conn", &3u32.to_le_bytes()));
    h.extend(field("op", &[7]));
    let c = ConnectionHeader::from(&h).unwrap();
    assert_eq!(c.topic, "/chatter");
    assert_eq!(c.connection_id, 3);
    let mut h = field("topic", &[b'/', 0xff, b'b']);
    h.extend(field("conn", &3u32.to_le_bytes()));
    h.extend(field("op", &[7]));
    let c = ConnectionHeader::from(&h).unwrap();
    assert_eq!(c.topic, "/\u{fffd}b");
}

#[test]
fn time_order_and_duration() {
    let a = Time::new(1, 500);
    let b = Time::new(2, 0);
    assert_eq!(a.compare(&b), std::cmp::Ordering::Less);
    assert_eq!(b.compare(&a), std::cmp::Ordering::Greater);
    // Nanoseconds past a full second count towards the seconds.
    let c = Time::new(0, 2_000_000_000);
    assert_eq!(c.compare(&b), std::cmp::Ordering::Equal);
    assert_eq!(a.nanos(), 1_000_000_500);
    let d = b.dur(&a);
    assert_eq!(d.secs, 0);
    assert_eq!(d.nsecs, 999_999_500);
    let d = Time::max_time().dur(&Time::zero());
    assert_eq!(d.secs, u32::MAX as u64);
    assert_eq!(d.nsecs, 999_999_999);
    assert_eq!(Time::min_time(), Time { secs: 0, nsecs: 1 });
    assert_eq!(Time::from(&[1, 0, 0, 0, 2, 0, 0, 0]).unwrap(), Time { secs: 1, nsecs: 2 });
    assert_eq!(Time::from(&[1, 0, 0, 0, 2, 0, 0]), Err(ParseError::BufferTooSmall));
}

#[test]
fn op_field_is_required() {
    let mut h = field("index_pos", &1234u64.to_le_bytes());
    h.extend(field("conn_count", &3u32.to_le_bytes()));
    h.extend(field("chunk_count", &2u32.to_le_bytes()));
    assert_eq!(BagHeader::from(&h), Err(ParseError::MissingField));
    let mut h = field("conn", &1u32.to_le_bytes());
    h.extend(field("time", &[5, 0, 0, 0, 6, 0, 0, 0]));
    assert_eq!(MessageDataHeader::from(&h), Err(ParseError::MissingField));
    let h = field("topic", b"/a");
    let mut h = h;
    h.extend(field("conn", &1u32.to_le_bytes()));
    assert!(ConnectionHeader::from(&h).is_err());
    let mut h = field("ver", &1u32.to_le_bytes());
    h.extend(field("chunk_pos", &7u64.to_le_bytes()));
    h.extend(field("start_time", &[0u8; 8]));
    h.extend(field("end_time", &[0u8; 8]));
    h.extend(field("count", &0u32.to_le_bytes()));
    assert_eq!(ChunkInfoHeader::from(&h), Err(ParseError::MissingField));
    h.extend(field("op", &[6]));
    assert!(ChunkInfoHeader::from(&h).is_ok());
}

#[test]
fn index_version_must_be_one() {
    let header = |ver: u32| {
        let mut h = field("ver", &ver.to_le_bytes());
        h.extend(field("conn", &2u32.to_le_bytes()));
        h.extend(field("count", &5u32.to_le_bytes()));
        h.extend(field("op", &[4]));
        h
    };
    let ih = IndexDataHeader::from(&header(1)).unwrap();
    assert_eq!((ih.version, ih.connection_id, ih.count), (1, 2, 5));
    assert_eq!(IndexDataHeader::from(&header(2)), Err(ParseError::UnsupportedVersion));
    assert_eq!(IndexDataHeader::from(&header(0)), Err(ParseError::UnsupportedVersion));
    let mut no_op = field("ver", &1u32.to_le_bytes());
    no_op.extend(field("conn", &2u32.to_le_bytes()));
    no_op.extend(field("count", &5u32.to_le_bytes()));
    assert_eq!(IndexDataHeader::from(&no_op), Err(ParseError::MissingField));
}
