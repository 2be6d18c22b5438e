use frost::records::IndexData;
use frost::time::Time;
use frost::{Bag, BagDefect, BagMetadata, ErrorKind, MessageView, ParseError, Query};

const CONNS: [(u32, &str, &str); 3] = [
    (0, "/chatter", "std_msgs/String"),
    (1, "/array", "std_msgs/Float64MultiArray"),
    (2, "/time", "std_msgs/Time"),
];

fn field(name: &str, value: &[u8]) -> Vec<u8> {
    let mut out = Vec::new();
    let len = (name.len() + 1 + value.len()) as u32;
    out.extend_from_slice(&len.to_le_bytes());
    out.extend_from_slice(name.as_bytes());
    out.push(b'=');
    out.extend_from_slice(value);
    out
}

fn record(header: &[u8], data: &[u8]) -> Vec<u8> {
    let mut out = Vec::new();
    out.extend_from_slice(&(header.len() as u32).to_le_bytes());
    out.extend_from_slice(header);
    out.extend_from_slice(&(data.len() as u32).to_le_bytes());
    out.extend_from_slice(data);
    out
}

fn time_bytes(secs: u32, nsecs: u32) -> Vec<u8> {
    let mut t = secs.to_le_bytes().to_vec();
    t.extend_from_slice(&nsecs.to_le_bytes());
    t
}

/// The time of round `i` on connection `conn`.
fn msg_time(i: u32, conn: u32) -> (u32, u32) {
    (1000 + i, 10 * conn + 1)
}

/// The message data (without its length prefix) of round `i` on `conn`.
fn payload(conn: u32, i: u32) -> Vec<u8> {
    let mut d = Vec::new();
    match conn {
        0 => {
            let s = format!("foo_{i}");
            d.extend_from_slice(&(s.len() as u32).to_le_bytes());
            d.extend_from_slice(s.as_bytes());
        }
        1 => {
            d.extend_from_slice(&0u32.to_le_bytes());
            d.extend_from_slice(&0u32.to_le_bytes());
            d.extend_from_slice(&3u32.to_le_bytes());
            for _ in 0..3 {
                d.extend_from_slice(&3.14f64.to_le_bytes());
            }
        }
        _ => {
            d.extend_from_slice(&time_bytes(i, 0));
        }
    }
    d
}

struct Layout {
    lz4: bool,
    chunks: u32,
    rounds: u32,
    index_pos: u64,
}

fn lz4_frame(body: &[u8]) -> Vec<u8> {
    let block = lz4_flex::compress(body);
    let mut out = vec![0x04, 0x22, 0x4d, 0x18, 0x60, 0x40, 0x82];
    out.extend_from_slice(&(block.len() as u32).to_le_bytes());
    out.extend_from_slice(&block);
    out.extend_from_slice(&[0u8; 8]);
    out
}

fn bag_header_record(index_pos: u64, conn_count: u32, chunk_count: u32) -> Vec<u8> {
    let mut h = field("index_pos", &index_pos.to_le_bytes());
    h.extend(field("conn_count", &conn_count.to_le_bytes()));
    h.extend(field("chunk_count", &chunk_count.to_le_bytes()));
    h.extend(field("op", &[3]));
    record(&h, &[0u8; 16])
}

fn connection_record(id: u32, topic: &str, ty: &str) -> Vec<u8> {
    let mut h = field("topic", topic.as_bytes());
    h.extend(field("conn", &id.to_le_bytes()));
    h.extend(field("op", &[7]));
    let mut d = field("topic", topic.as_bytes());
    d.extend(field("type", ty.as_bytes()));
    d.extend(field("md5sum", b"992ce8a1687cec8c8bd883ec73ca41d1"));
    d.extend(field("message_definition", b"string data\n"));
    d.extend(field("latching", b"1"));
    record(&h, &d)
}

/// Builds a bag of `rounds` rounds of one message per connection, spread
/// over `chunks` chunks.
fn build(layout: &Layout) -> Vec<u8> {
    let header_len = bag_header_record(0, 0, 0).len();
    let base = 13 + header_len;
    let mut rest: Vec<u8> = Vec::new();
    let mut infos: Vec<(u64, (u32, u32), (u32, u32), Vec<(u32, u32)>)> = Vec::new();
    let per_chunk = layout.rounds / layout.chunks;
    for c in 0..layout.chunks {
        let first = c * per_chunk;
        let last = if c + 1 == layout.chunks { layout.rounds } else { first + per_chunk };
        let mut body: Vec<u8> = Vec::new();
        let mut offsets: Vec<Vec<((u32, u32), u32)>> = vec![Vec::new(); 3];
        for i in first..last {
            for (conn, _, _) in CONNS {
                let (s, n) = msg_time(i, conn);
                let mut h = field("conn", &conn.to_le_bytes());
                h.extend(field("time", &time_bytes(s, n)));
                h.extend(field("op", &[2]));
                offsets[conn as usize].push(((s, n), body.len() as u32));
                body.extend(record(&h, &payload(conn, i)));
            }
        }
        let chunk_pos = (base + rest.len()) as u64;
        let (compression, data): (&[u8], Vec<u8>) = if layout.lz4 {
            (b"lz4", lz4_frame(&body))
        } else {
            (b"none", body.clone())
        };
        let mut h = field("compression", compression);
        h.extend(field("size", &(body.len() as u32).to_le_bytes()));
        h.extend(field("op", &[5]));
        rest.extend(record(&h, &data));
        for (conn, _, _) in CONNS {
            let entries = &offsets[conn as usize];
            let mut h = field("ver", &1u32.to_le_bytes());
            h.extend(field("conn", &conn.to_le_bytes()));
            h.extend(field("count", &(entries.len() as u32).to_le_bytes()));
            h.extend(field("op", &[4]));
            let mut d = Vec::new();
            for ((s, n), off) in entries {
                d.extend(time_bytes(*s, *n));
                d.extend_from_slice(&off.to_le_bytes());
            }
            rest.extend(record(&h, &d));
        }
        let counts = CONNS.iter().map(|(id, _, _)| (*id, last - first)).collect();
        infos.push((chunk_pos, msg_time(first, 0), msg_time(last - 1, 2), counts));
    }
    let index_start = rest.len();
    for (id, topic, ty) in CONNS {
        rest.extend(connection_record(id, topic, ty));
    }
    for (pos, start, end, counts) in &infos {
        let mut h = field("ver", &1u32.to_le_bytes());
        h.extend(field("chunk_pos", &pos.to_le_bytes()));
        h.extend(field("start_time", &time_bytes(start.0, start.1)));
        h.extend(field("end_time", &time_bytes(end.0, end.1)));
        h.extend(field("count", &(counts.len() as u32).to_le_bytes()));
        h.extend(field("op", &[6]));
        let mut d = Vec::new();
        for (id, n) in counts {
            d.extend_from_slice(&id.to_le_bytes());
            d.extend_from_slice(&n.to_le_bytes());
        }
        rest.extend(record(&h, &d));
    }
    let index_pos = if layout.index_pos == 0 { 0 } else { (base + index_start) as u64 };
    let mut bytes = b"#ROSBAG V2.0\n".to_vec();
    bytes.extend(bag_header_record(index_pos, 3, layout.chunks));
    bytes.extend(rest);
    bytes
}

fn s1(lz4: bool) -> Vec<u8> {
    build(&Layout { lz4, chunks: 4, rounds: 100, index_pos: 1 })
}

fn views<'a>(bag: &'a Bag, query: &Query) -> Vec<MessageView<'a>> {
    let mut it = bag.read_messages(query).unwrap();
    let mut out = Vec::new();
    while let Some(v) = it.next() {
        out.push(v);
    }
    out
}

fn count(bag: &Bag, query: &Query) -> usize {
    views(bag, query).len()
}

fn fixtures() -> [(Vec<u8>, &'static str); 2] {
    [(s1(false), "decompressed"), (s1(true), "compressed_lz4")]
}

#[test]
fn bag_iter_from_bytes() {
    for (bytes, name) in fixtures().iter() {
        let bag = Bag::from_bytes(bytes).unwrap();

        let query = Query::all();
        assert_eq!(count(&bag, &query), 300, "{name}");

        let query = Query::new().with_topics(&["/chatter"]);
        assert_eq!(count(&bag, &query), 100, "{name}");

        let query = Query::new().with_topics(&["/array"]);
        assert_eq!(count(&bag, &query), 100, "{name}");

        let query = Query::new().with_types(&["std_msgs/String"]);
        assert_eq!(count(&bag, &query), 100, "{name}");
        for msg_view in views(&bag, &query) {
            assert_eq!(msg_view.topic, "/chatter");
        }

        let query = Query::new().with_topics(&["/chatter"]).with_types(&["std_msgs/String"]);
        assert_eq!(count(&bag, &query), 100, "{name}");

        let query = Query::new().with_topics(&["/time"]).with_types(&["std_msgs/Time"]);
        assert_eq!(count(&bag, &query), 100, "{name}");

        let query = Query::new().with_topics(&["/chatter"]).with_types(&["std_msgs/Time"]);
        assert_eq!(count(&bag, &query), 0, "{name}");

        let query = Query::new().with_types(&["std_msgs/Time", "std_msgs/String"]);
        assert_eq!(count(&bag, &query), 200, "{name}");
    }
}

#[test]
fn msg_reading() {
    for (bytes, name) in fixtures().iter() {
        let bag = Bag::from_bytes(bytes).unwrap();

        let query = Query::new().with_topics(&["/chatter"]);
        for (i, msg_view) in views(&bag, &query).iter().enumerate() {
            let data: String = serde_rosmsg::from_slice(msg_view.raw_bytes().unwrap()).unwrap();
            assert_eq!(data, format!("foo_{i}"), "{name}");
        }

        let query = Query::new().with_topics(&["/time"]);
        assert_eq!(count(&bag, &query), 100, "{name}");
        for (i, msg_view) in views(&bag, &query).iter().enumerate() {
            let (secs, _nsecs): (u32, u32) = serde_rosmsg::from_slice(msg_view.raw_bytes().unwrap()).unwrap();
            assert_eq!(secs, i as u32, "{name}");
        }

        let query = Query::new().with_topics(&["/array"]);
        assert_eq!(count(&bag, &query), 100, "{name}");
        for msg_view in views(&bag, &query) {
            let (_layout, data): ((Vec<(String, u32, u32)>, u32), Vec<f64>) =
                serde_rosmsg::from_slice(msg_view.raw_bytes().unwrap()).unwrap();
            assert_eq!(data, vec![3.14, 3.14, 3.14], "{name}");
        }
    }
}

#[test]
fn msg_reading_wrong_type() {
    for (bytes, name) in fixtures().iter() {
        let bag = Bag::from_bytes(bytes).unwrap();
        let query = Query::new().with_topics(&["/chatter"]);
        let msg_view = views(&bag, &query).pop().unwrap();
        let res: Result<(u32, u32), _> = serde_rosmsg::from_slice(msg_view.raw_bytes().unwrap());
        assert!(res.is_err(), "{name}");
    }
}

#[test]
fn not_a_rosbag() {
    let err = Bag::from_bytes(b"not a bag\n\n\n\n").unwrap_err();
    assert_eq!(*err.kind(), ErrorKind::NotARosbag);
    let err = BagMetadata::from_bytes(b"").unwrap_err();
    assert_eq!(*err.kind(), ErrorKind::NotARosbag);
}

#[test]
fn unindexed_bag_is_rejected() {
    let bytes = build(&Layout { lz4: false, chunks: 2, rounds: 10, index_pos: 0 });
    let err = Bag::from_bytes(&bytes).unwrap_err();
    assert_eq!(*err.kind(), ErrorKind::UnindexedBag);
    let err = Bag::metadata_from_bytes(&bytes).unwrap_err();
    assert_eq!(*err.kind(), ErrorKind::UnindexedBag);
}

#[test]
fn metadata_only_open() {
    let bytes = s1(false);
    let bag = Bag::metadata_from_bytes(&bytes).unwrap();
    assert_eq!(bag.metadata.message_count(), 300);
    assert_eq!(bag.metadata.topics(), vec!["/chatter", "/array", "/time"]);
    let err = bag.read_messages(&Query::all()).err().unwrap();
    assert_eq!(*err.kind(), ErrorKind::UnsupportedMode);
    assert_eq!(bag.metadata.num_bytes, bytes.len() as u64);
    assert_eq!(bag.metadata.version, "2.0");
}

#[test]
fn counts_balance() {
    for (bytes, _) in fixtures().iter() {
        let m = BagMetadata::from_bytes(bytes).unwrap();
        assert_eq!(m.chunk_metadata.len(), m.bag_header.chunk_count as usize);
        assert_eq!(m.chunk_metadata.len(), 4);
        assert_eq!(m.connection_data.len(), m.bag_header.conn_count as usize);
        assert_eq!(m.connection_data.len(), 3);
        assert_eq!(m.connection_data[0].data_type, "std_msgs/String");
        assert!(m.connection_data[0].latching);
        assert_eq!(m.connection_data[0].caller_id, None);
    }
}

#[test]
fn time_window() {
    let bytes = s1(false);
    let bag = Bag::from_bytes(&bytes).unwrap();
    let chatter = views(&bag, &Query::new().with_topics(&["/chatter"]));
    let query = Query::new()
        .with_topics(&["/chatter"])
        .with_start_time(chatter[4].time)
        .with_end_time(chatter[9].time);
    assert_eq!(count(&bag, &query), 6);
    let mut q = Query::new();
    q.topics(vec!["/chatter".to_string()]);
    q.start_time(chatter[4].time);
    q.end_time(chatter[9].time);
    assert_eq!(count(&bag, &q), 6);
}

#[test]
fn messages_come_in_time_order() {
    for (bytes, _) in fixtures().iter() {
        let bag = Bag::from_bytes(bytes).unwrap();
        let all = views(&bag, &Query::all());
        for w in all.windows(2) {
            assert!(w[0].time.nanos() <= w[1].time.nanos());
        }
        assert_eq!(all[0].topic, "/chatter");
        assert_eq!(all[1].topic, "/array");
        assert_eq!(all[2].topic, "/time");
    }
}

#[test]
fn iteration_is_repeatable() {
    let bytes = s1(true);
    let bag = Bag::from_bytes(&bytes).unwrap();
    let q = Query::new().with_types(&["std_msgs/Time", "std_msgs/String"]);
    let a: Vec<(String, Time, Vec<u8>)> = views(&bag, &q)
        .iter()
        .map(|v| (v.topic.to_string(), v.time, v.raw_bytes().unwrap().to_vec()))
        .collect();
    let b: Vec<(String, Time, Vec<u8>)> = views(&bag, &q)
        .iter()
        .map(|v| (v.topic.to_string(), v.time, v.raw_bytes().unwrap().to_vec()))
        .collect();
    assert_eq!(a.len(), 200);
    assert_eq!(a, b);
}

#[test]
fn lz4_bodies_have_declared_size() {
    let bytes = s1(true);
    let bag = Bag::from_bytes(&bytes).unwrap();
    let plain = Bag::from_bytes(&s1(false)).unwrap();
    let bodies = bag.chunk_bytes.as_ref().unwrap();
    let plain_bodies = plain.chunk_bytes.as_ref().unwrap();
    for (i, c) in bag.metadata.chunk_metadata.iter().enumerate() {
        assert_eq!(c.compression, "lz4");
        assert_eq!(bodies[i].len(), c.uncompressed_size as usize);
        assert_eq!(bodies[i], plain_bodies[i]);
        assert!(c.compressed_size as usize != bodies[i].len());
    }
}

#[test]
fn metadata_accessors() {
    let bytes = s1(false);
    let m = BagMetadata::from_bytes(&bytes).unwrap();
    assert_eq!(m.start_time(), Some(Time { secs: 1000, nsecs: 1 }));
    assert_eq!(m.end_time(), Some(Time { secs: 1099, nsecs: 21 }));
    let d = m.duration();
    assert_eq!(d.secs, 99);
    assert_eq!(d.nsecs, 20);
    assert_eq!(m.types(), vec!["std_msgs/String", "std_msgs/Float64MultiArray", "std_msgs/Time"]);
    let pairs = m.topics_and_types();
    assert_eq!(pairs.len(), 3);
    assert_eq!(pairs[2], ("/time".to_string(), "std_msgs/Time".to_string()));
    let counts = m.topic_message_counts();
    assert_eq!(counts, vec![("/chatter".to_string(), 100), ("/array".to_string(), 100), ("/time".to_string(), 100)]);
    let ids = m.topic_to_connection_ids();
    assert_eq!(ids[1], ("/array".to_string(), vec![1]));
    let ids = m.type_to_connection_ids();
    assert_eq!(ids[2], ("std_msgs/Time".to_string(), vec![2]));
    let info = m.compression_info();
    assert_eq!(info.len(), 1);
    assert_eq!(info[0].name, "none");
    assert_eq!(info[0].chunk_count, 4);
    let total: u64 = m.chunk_metadata.iter().map(|c| c.compressed_size as u64).sum();
    assert_eq!(info[0].total_compressed, total);
    assert_eq!(info[0].total_uncompressed, total);
    let bag = Bag::from_bytes(&bytes).unwrap();
    assert_eq!(bag.start_time(), m.start_time());
    assert_eq!(bag.end_time(), m.end_time());
    assert_eq!(bag.duration(), d);
}

#[test]
fn empty_bag_has_no_time_range() {
    let mut bytes = b"#ROSBAG V2.0\n".to_vec();
    bytes.extend(bag_header_record(1, 0, 0));
    let m = BagMetadata::from_bytes(&bytes).unwrap();
    assert_eq!(m.start_time(), None);
    assert_eq!(m.end_time(), None);
    let d = m.duration();
    assert_eq!((d.secs, d.nsecs), (0, 0));
    assert_eq!(m.message_count(), 0);
    assert!(m.compression_info().is_empty());
}

#[test]
fn shared_topic_is_listed_once() {
    let mut bytes = b"#ROSBAG V2.0\n".to_vec();
    bytes.extend(bag_header_record(1, 3, 0));
    bytes.extend(connection_record(4, "/a", "x/A"));
    bytes.extend(connection_record(5, "/b", "x/A"));
    bytes.extend(connection_record(6, "/a", "x/B"));
    let m = BagMetadata::from_bytes(&bytes).unwrap();
    assert_eq!(m.topics(), vec!["/a", "/b"]);
    assert_eq!(m.types(), vec!["x/A", "x/B"]);
    assert_eq!(m.topics_and_types().len(), 3);
    assert_eq!(m.topic_to_connection_ids()[0], ("/a".to_string(), vec![4, 6]));
}

#[test]
fn compression_info_sorts_by_compressed_bytes() {
    let plain = s1(false);
    let packed = s1(true);
    let a = BagMetadata::from_bytes(&plain).unwrap();
    let b = BagMetadata::from_bytes(&packed).unwrap();
    // Two lz4 chunks first, then the four plain chunks of the other bag.
    let mut m = b;
    m.chunk_metadata.truncate(2);
    for c in a.chunk_metadata.iter() {
        m.chunk_metadata.push(c.clone());
    }
    m.bag_header.chunk_count = m.chunk_metadata.len() as u32;
    let info = m.compression_info();
    assert_eq!(info.len(), 2);
    assert!(info[0].total_compressed > info[1].total_compressed);
    assert_eq!(info[0].name, "none");
    assert_eq!(info[0].chunk_count, 4);
    assert_eq!(info[1].name, "lz4");
    assert_eq!(info[1].chunk_count, 2);
    assert_eq!(info[0].total_uncompressed, info[0].total_compressed);
    assert!(info[1].total_uncompressed > info[1].total_compressed);
}

#[test]
fn truncated_and_miscounted_bags() {
    let good = build(&Layout { lz4: false, chunks: 2, rounds: 10, index_pos: 1 });
    // A chunk header that the file ends right after.
    let mut h = field("compression", b"none");
    h.extend(field("size", &0u32.to_le_bytes()));
    h.extend(field("op", &[5]));
    let mut cut = good.clone();
    cut.extend_from_slice(&(h.len() as u32).to_le_bytes());
    cut.extend(h);
    assert_eq!(*Bag::from_bytes(&cut).unwrap_err().kind(), ErrorKind::Parse(ParseError::UnexpectedEOF));
    // A third chunk-info record for a bag of two chunks.
    let mut h = field("ver", &1u32.to_le_bytes());
    h.extend(field("chunk_pos", &7u64.to_le_bytes()));
    h.extend(field("start_time", &time_bytes(0, 0)));
    h.extend(field("end_time", &time_bytes(0, 0)));
    h.extend(field("count", &0u32.to_le_bytes()));
    h.extend(field("op", &[6]));
    let mut extra = good.clone();
    extra.extend(record(&h, &[]));
    assert_eq!(*Bag::from_bytes(&extra).unwrap_err().kind(), ErrorKind::InvalidBag(BagDefect::ChunkInfoCountMismatch));
    // A chunk whose data would run past the end of the file.
    let mut m = BagMetadata::from_bytes(&good).unwrap();
    m.chunk_metadata[1].compressed_size = good.len() as u32;
    let err = frost::bag::populate_chunk_bytes(&m.chunk_metadata, &good).unwrap_err();
    assert_eq!(*err.kind(), ErrorKind::InvalidBag(BagDefect::ChunkOutOfBounds));
    let bodies = frost::bag::populate_chunk_bytes(&BagMetadata::from_bytes(&good).unwrap().chunk_metadata, &good).unwrap();
    assert_eq!(bodies.len(), 2);
}

fn replace(bytes: &[u8], from: &[u8], to: &[u8]) -> Vec<u8> {
    let at = bytes.windows(from.len()).position(|w| w == from).unwrap();
    let mut out = bytes[..at].to_vec();
    out.extend_from_slice(to);
    out.extend_from_slice(&bytes[at + from.len()..]);
    out
}

#[test]
fn structural_errors() {
    let good = build(&Layout { lz4: false, chunks: 2, rounds: 10, index_pos: 1 });
    // The bag header announces a third chunk.
    let wrong = replace(&good, &field("chunk_count", &2u32.to_le_bytes()), &field("chunk_count", &3u32.to_le_bytes()));
    assert_eq!(*Bag::from_bytes(&wrong).unwrap_err().kind(), ErrorKind::InvalidBag(BagDefect::ChunkCountMismatch));
    let wrong = replace(&good, &field("conn_count", &3u32.to_le_bytes()), &field("conn_count", &4u32.to_le_bytes()));
    assert_eq!(*Bag::from_bytes(&wrong).unwrap_err().kind(), ErrorKind::InvalidBag(BagDefect::ConnectionCountMismatch));
    // Without its bag header.
    let header_len = bag_header_record(0, 0, 0).len();
    let mut headless = good[..13].to_vec();
    headless.extend_from_slice(&good[13 + header_len..]);
    assert_eq!(*Bag::from_bytes(&headless).unwrap_err().kind(), ErrorKind::InvalidBag(BagDefect::MissingBagHeader));
    // A second connection record with id 0.
    let dup = replace(&good, &connection_record(2, "/time", "std_msgs/Time"), &connection_record(0, "/time", "std_msgs/Time"));
    assert_eq!(*Bag::from_bytes(&dup).unwrap_err().kind(), ErrorKind::InvalidBag(BagDefect::DuplicateConnection));
    // Truncated in the middle of a record.
    let cut = &good[..good.len() - 3];
    assert_eq!(*Bag::from_bytes(cut).unwrap_err().kind(), ErrorKind::Parse(ParseError::BufferTooSmall));
    // A message record at the top level.
    let mut h = field("conn", &0u32.to_le_bytes());
    h.extend(field("time", &time_bytes(1, 1)));
    h.extend(field("op", &[2]));
    let mut stray = good.clone();
    stray.extend(record(&h, b"x"));
    assert_eq!(*Bag::from_bytes(&stray).unwrap_err().kind(), ErrorKind::InvalidBag(BagDefect::MessageOutsideChunk));
    // An unknown op code.
    let mut odd = good.clone();
    odd.extend(record(&field("op", &[9]), b""));
    assert_eq!(*Bag::from_bytes(&odd).unwrap_err().kind(), ErrorKind::Parse(ParseError::InvalidOpCode));
    // A header without an op field.
    let mut no_op = good.clone();
    no_op.extend(record(&field("conn", &[0, 0, 0, 0]), b""));
    assert_eq!(*Bag::from_bytes(&no_op).unwrap_err().kind(), ErrorKind::Parse(ParseError::MissingField));
    // A few trailing bytes end the walk normally.
    let mut tail = good.clone();
    tail.extend_from_slice(&[1, 2, 3]);
    assert!(Bag::from_bytes(&tail).is_ok());
}

#[test]
fn index_and_chunk_errors() {
    let good = build(&Layout { lz4: false, chunks: 2, rounds: 10, index_pos: 1 });
    // An index record that claims more entries than it holds.
    let mut h = field("ver", &1u32.to_le_bytes());
    h.extend(field("conn", &0u32.to_le_bytes()));
    h.extend(field("count", &10u32.to_le_bytes()));
    h.extend(field("op", &[4]));
    let fixed = record(&h, &[0u8; 120]);
    let mut h2 = field("ver", &1u32.to_le_bytes());
    h2.extend(field("conn", &0u32.to_le_bytes()));
    h2.extend(field("count", &11u32.to_le_bytes()));
    h2.extend(field("op", &[4]));
    let mut short = good.clone();
    short.extend(record(&h2, &[0u8; 120]));
    assert_eq!(*Bag::from_bytes(&short).unwrap_err().kind(), ErrorKind::Parse(ParseError::MissingRecord));
    // An index record before any chunk.
    let header_len = bag_header_record(0, 0, 0).len();
    let mut early = good[..13 + header_len].to_vec();
    early.extend(fixed.clone());
    early.extend_from_slice(&good[13 + header_len..]);
    assert_eq!(*Bag::from_bytes(&early).unwrap_err().kind(), ErrorKind::InvalidBag(BagDefect::IndexBeforeChunk));
    // An index record for a connection that the bag lacks.
    let mut h3 = field("ver", &1u32.to_le_bytes());
    h3.extend(field("conn", &77u32.to_le_bytes()));
    h3.extend(field("count", &0u32.to_le_bytes()));
    h3.extend(field("op", &[4]));
    let mut unknown = good.clone();
    unknown.extend(record(&h3, &[]));
    assert_eq!(*Bag::from_bytes(&unknown).unwrap_err().kind(), ErrorKind::InvalidBag(BagDefect::UnknownConnection));
    // An index record of version 2.
    let mut h4 = field("ver", &2u32.to_le_bytes());
    h4.extend(field("conn", &0u32.to_le_bytes()));
    h4.extend(field("count", &0u32.to_le_bytes()));
    h4.extend(field("op", &[4]));
    let mut newer = good.clone();
    newer.extend(record(&h4, &[]));
    assert_eq!(*Bag::from_bytes(&newer).unwrap_err().kind(), ErrorKind::Parse(ParseError::UnsupportedVersion));
    // A chunk that no chunk-info record describes.
    let wrong = replace(&good, &field("chunk_pos", &((13 + header_len) as u64).to_le_bytes()), &field("chunk_pos", &1u64.to_le_bytes()));
    assert_eq!(*Bag::from_bytes(&wrong).unwrap_err().kind(), ErrorKind::InvalidBag(BagDefect::ChunkInfoMismatch));
    // An unsupported compression.
    let bz2 = replace(&good, &field("compression", b"none"), &field("compression", b"bz2!"));
    assert_eq!(*Bag::from_bytes(&bz2).unwrap_err().kind(), ErrorKind::InvalidBag(BagDefect::UnsupportedCompression));
    assert!(BagMetadata::from_bytes(&bz2).is_ok());
    // An index entry whose offset points past its chunk's messages.
    let m = BagMetadata::from_bytes(&good).unwrap();
    let e: IndexData = m.index_data[0];
    let mut entry = time_bytes(e.time.secs, e.time.nsecs);
    entry.extend_from_slice(&e.offset.to_le_bytes());
    let mut moved = time_bytes(e.time.secs, e.time.nsecs);
    moved.extend_from_slice(&100_000u32.to_le_bytes());
    let lost = replace(&good, &entry, &moved);
    assert_eq!(*Bag::from_bytes(&lost).unwrap_err().kind(), ErrorKind::InvalidBag(BagDefect::MessageNotFound));
}

#[test]
fn lz4_errors() {
    let packed = s1(true);
    // Declare a larger uncompressed size than the block decodes to.
    let m = BagMetadata::from_bytes(&packed).unwrap();
    let size = m.chunk_metadata[0].uncompressed_size;
    let bigger = replace(&packed, &field("size", &size.to_le_bytes()), &field("size", &(size + 1).to_le_bytes()));
    assert_eq!(*Bag::from_bytes(&bigger).unwrap_err().kind(), ErrorKind::Decompression);
    let smaller = replace(&packed, &field("size", &size.to_le_bytes()), &field("size", &(size - 1).to_le_bytes()));
    assert_eq!(*Bag::from_bytes(&smaller).unwrap_err().kind(), ErrorKind::Decompression);
    assert_eq!(frost::chunks::accept_decoded(Some(vec![1, 2, 3]), 3).unwrap(), vec![1, 2, 3]);
    assert_eq!(*frost::chunks::accept_decoded(Some(vec![1, 2]), 3).unwrap_err().kind(), ErrorKind::Decompression);
    assert_eq!(*frost::chunks::accept_decoded(None, 0).unwrap_err().kind(), ErrorKind::Decompression);
    let short = frost::chunks::chunk_body(&[0u8; 18], &"lz4".to_string(), 0);
    assert_eq!(*short.unwrap_err().kind(), ErrorKind::Decompression);
    let plain = frost::chunks::chunk_body(&[5u8, 6], &"none".to_string(), 0);
    assert_eq!(plain.unwrap(), vec![5, 6]);
}
