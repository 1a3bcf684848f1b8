//! End-to-end reads over in-memory bags.
use rustbag::bag::Bag;
use rustbag::error::RosError;
use rustbag::msg_value::{FieldValue, MsgValue};

fn u32le(x: u32) -> Vec<u8> {
    x.to_le_bytes().to_vec()
}

fn field(name: &str, value: &[u8]) -> Vec<u8> {
    let mut nv = name.as_bytes().to_vec();
    nv.push(b'=');
    nv.extend_from_slice(value);
    let mut out = u32le(nv.len() as u32);
    out.extend_from_slice(&nv);
    out
}

fn rec(fields: &[Vec<u8>], data: &[u8]) -> Vec<u8> {
    let header: Vec<u8> = fields.concat();
    let mut out = u32le(header.len() as u32);
    out.extend_from_slice(&header);
    out.extend_from_slice(&u32le(data.len() as u32));
    out.extend_from_slice(data);
    out
}

fn ros_time(sec: u32, ns: u32) -> Vec<u8> {
    let mut v = u32le(sec);
    v.extend_from_slice(&u32le(ns));
    v
}

fn msg_record(conn: u32, sec: u32, payload: &[u8]) -> Vec<u8> {
    rec(
        &[field("op", &[0x02]), field("conn", &u32le(conn)), field("time", &ros_time(sec, 0))],
        payload,
    )
}

fn conn_record(conn: u32, topic: &str, mtype: &str, def: &str) -> Vec<u8> {
    let data: Vec<u8> = [
        field("topic", topic.as_bytes()),
        field("type", mtype.as_bytes()),
        field("md5sum", b"0"),
        field("message_definition", def.as_bytes()),
    ]
    .concat();
    rec(&[field("op", &[0x07]), field("conn", &u32le(conn)), field("topic", topic.as_bytes())], &data)
}

fn chunk_info_record(chunk_pos: u32, start_sec: u32, end_sec: u32, entries: &[(u32, u32)]) -> Vec<u8> {
    let mut data = Vec::new();
    for (c, n) in entries {
        data.extend_from_slice(&u32le(*c));
        data.extend_from_slice(&u32le(*n));
    }
    rec(
        &[
            field("op", &[0x06]),
            field("ver", &u32le(1)),
            field("chunk_pos", &u32le(chunk_pos)),
            field("start_time", &ros_time(start_sec, 0)),
            field("end_time", &ros_time(end_sec, 0)),
            field("count", &u32le(entries.len() as u32)),
        ],
        &data,
    )
}

fn chunk_record(compression: &str, size: u32, data: &[u8]) -> Vec<u8> {
    rec(
        &[field("op", &[0x05]), field("compression", compression.as_bytes()), field("size", &u32le(size))],
        data,
    )
}

fn bag_header_record(index_pos: u64, conn_count: u32, chunk_count: u32) -> Vec<u8> {
    rec(
        &[
            field("op", &[0x03]),
            field("index_pos", &index_pos.to_le_bytes()),
            field("conn_count", &u32le(conn_count)),
            field("chunk_count", &u32le(chunk_count)),
        ],
        &[],
    )
}

fn i32payload(x: i32) -> Vec<u8> {
    x.to_le_bytes().to_vec()
}

/// Two topics: `/a` on connection 0 (messages at 1 s and 3 s) and `/b`
/// on connection 1 (messages at 2 s, 4 s and 5 s), split over two
/// chunks.
fn two_topic_bag() -> Vec<u8> {
    let def = "int32 x\n";
    let inner0: Vec<u8> = [msg_record(0, 1, &i32payload(42)), msg_record(1, 2, &i32payload(7))].concat();
    let inner1: Vec<u8> = [
        msg_record(0, 3, &i32payload(1)),
        msg_record(1, 4, &i32payload(2)),
        msg_record(1, 5, &i32payload(3)),
    ]
    .concat();
    let bh_len = bag_header_record(0, 0, 0).len() as u32;
    let chunk0_pos = 13 + bh_len;
    let chunk0 = chunk_record("none", inner0.len() as u32, &inner0);
    let chunk1_pos = chunk0_pos + chunk0.len() as u32;
    let chunk1 = chunk_record("none", inner1.len() as u32, &inner1);
    let index_pos = chunk1_pos as u64 + chunk1.len() as u64;
    let mut bag = b"#ROSBAG V2.0\n".to_vec();
    bag.extend_from_slice(&bag_header_record(index_pos, 2, 2));
    bag.extend_from_slice(&chunk0);
    bag.extend_from_slice(&chunk1);
    bag.extend_from_slice(&conn_record(0, "/a", "pkg/M", def));
    bag.extend_from_slice(&conn_record(1, "/b", "pkg/M", def));
    bag.extend_from_slice(&chunk_info_record(chunk0_pos, 1, 2, &[(0, 1), (1, 1)]));
    bag.extend_from_slice(&chunk_info_record(chunk1_pos, 3, 5, &[(0, 1), (1, 1), (1, 1)]));
    bag
}

fn msg_i32(m: &MsgValue, name: &str) -> i32 {
    match m.field(name) {
        Some(FieldValue::I32(x)) => *x,
        other => panic!("field {} is {:?}", name, other),
    }
}

#[test]
fn empty_filter_full_window() {
    let mut bag = Bag::new_from_bytes(two_topic_bag());
    assert_eq!(bag.num_messages().unwrap(), 5);
    let msgs = bag.read_messages(None, None, None).unwrap();
    assert_eq!(msgs.len(), 5);
    let times: Vec<u64> = msgs.iter().map(|m| m.0).collect();
    assert_eq!(
        times,
        vec![1_000_000_000, 2_000_000_000, 3_000_000_000, 4_000_000_000, 5_000_000_000]
    );
    assert_eq!(msg_i32(&msgs[0].2, "x"), 42);
    assert_eq!(msg_i32(&msgs[4].2, "x"), 3);
}

#[test]
fn topic_filter_restricts_connections() {
    let mut bag = Bag::new_from_bytes(two_topic_bag());
    let topics = vec![String::from("/a")];
    let msgs = bag.read_messages(Some(&topics), None, None).unwrap();
    assert_eq!(msgs.len(), 2);
    for m in &msgs {
        assert_eq!(m.1, 0);
    }
    assert_eq!(msgs[0].0, 1_000_000_000);
    assert_eq!(msgs[1].0, 3_000_000_000);
}

#[test]
fn time_window_excludes_first_chunk() {
    let mut bag = Bag::new_from_bytes(two_topic_bag());
    let start = bag.start_time().unwrap();
    assert_eq!(start, 1_000_000_000);
    // Offset to the second chunk's start, in whole seconds.
    let offset = (3_000_000_000u64 - start) / 1_000_000_000;
    let msgs = bag.read_messages(None, Some(offset), None).unwrap();
    assert_eq!(msgs.len(), 3);
    assert_eq!(msgs[0].0, 3_000_000_000);
}

#[test]
fn end_offset_is_relative_to_bag_end() {
    let mut bag = Bag::new_from_bytes(two_topic_bag());
    // The end offset is added to the bag end, so a zero offset still
    // covers the whole bag.
    let msgs = bag.read_messages(None, Some(0), Some(0)).unwrap();
    assert_eq!(msgs.len(), 5);
}

#[test]
fn metadata_queries() {
    let mut bag = Bag::new_from_bytes(two_topic_bag());
    assert_eq!(bag.start_time().unwrap(), 1_000_000_000);
    assert_eq!(bag.end_time().unwrap(), 5_000_000_000);
    let mut topics = bag.topics().unwrap();
    topics.sort();
    assert_eq!(topics, vec![String::from("/a"), String::from("/b")]);
    let by_topic = bag.connections_by_topic().unwrap();
    assert_eq!(by_topic.len(), 2);
    for (topic, conns) in by_topic.iter() {
        assert_eq!(conns.len(), 1);
        assert_eq!(&conns[0].topic, topic);
        let data = conns[0].data.as_ref().unwrap();
        assert_eq!(data.message_type, "pkg/M");
        assert_eq!(data.message_definition, "int32 x\n");
    }
}

#[test]
fn version_failure() {
    let mut bad = b"#ROSBAG V1.2\n".to_vec();
    bad.extend_from_slice(&[0u8; 32]);
    let mut bag = Bag::new_from_bytes(bad);
    assert_eq!(bag.num_messages(), Err(RosError::InvalidVersion));
    assert_eq!(bag.start_time(), Err(RosError::InvalidVersion));
    assert!(matches!(bag.read_messages(None, None, None), Err(RosError::InvalidVersion)));
    assert!(matches!(bag.topics(), Err(RosError::InvalidVersion)));
}

#[test]
fn parse_twice_is_identical() {
    let bytes = two_topic_bag();
    let mut bag1 = Bag::new_from_bytes(bytes.clone());
    let mut bag2 = Bag::new_from_bytes(bytes);
    assert_eq!(bag1.num_messages().unwrap(), bag2.num_messages().unwrap());
    assert_eq!(bag1.topics().unwrap(), bag2.topics().unwrap());
    let m1 = bag1.read_messages(None, None, None).unwrap();
    let m2 = bag2.read_messages(None, None, None).unwrap();
    assert_eq!(m1.len(), m2.len());
    for (a, b) in m1.iter().zip(m2.iter()) {
        assert_eq!(a.0, b.0);
        assert_eq!(a.1, b.1);
        assert_eq!(msg_i32(&a.2, "x"), msg_i32(&b.2, "x"));
    }
}

/// The canonical single-connection chunk content used by the
/// compression tests: two `int32 x` messages (42 at 1 s, 7 at 2 s).
const INNER: [u8; 100] = [
    38, 0, 0, 0, 4, 0, 0, 0, 111, 112, 61, 2, 9, 0, 0, 0, 99, 111, 110, 110, 61, 0, 0, 0, 0, 13,
    0, 0, 0, 116, 105, 109, 101, 61, 1, 0, 0, 0, 0, 0, 0, 0, 4, 0, 0, 0, 42, 0, 0, 0, 38, 0, 0,
    0, 4, 0, 0, 0, 111, 112, 61, 2, 9, 0, 0, 0, 99, 111, 110, 110, 61, 0, 0, 0, 0, 13, 0, 0, 0,
    116, 105, 109, 101, 61, 2, 0, 0, 0, 0, 0, 0, 0, 4, 0, 0, 0, 7, 0, 0, 0,
];

/// `INNER` as a bzip2 stream.
const INNER_BZ2: [u8; 82] = [
    66, 90, 104, 57, 49, 65, 89, 38, 83, 89, 192, 79, 156, 79, 0, 0, 34, 217, 128, 124, 162, 1,
    16, 0, 2, 10, 35, 196, 0, 32, 0, 64, 85, 83, 212, 245, 26, 54, 160, 26, 20, 201, 137, 144,
    100, 101, 38, 100, 186, 217, 182, 169, 186, 20, 212, 23, 33, 72, 202, 145, 147, 199, 79, 146,
    245, 135, 203, 48, 194, 204, 208, 252, 93, 201, 20, 225, 66, 67, 1, 62, 113, 60,
];

fn one_chunk_bag(compression: &str, chunk_data: &[u8], size: u32) -> Vec<u8> {
    let def = "int32 x\n";
    let bh_len = bag_header_record(0, 0, 0).len() as u32;
    let chunk_pos = 13 + bh_len;
    let chunk = chunk_record(compression, size, chunk_data);
    let index_pos = chunk_pos as u64 + chunk.len() as u64;
    let mut bag = b"#ROSBAG V2.0\n".to_vec();
    bag.extend_from_slice(&bag_header_record(index_pos, 1, 1));
    bag.extend_from_slice(&chunk);
    bag.extend_from_slice(&conn_record(0, "/a", "pkg/M", def));
    bag.extend_from_slice(&chunk_info_record(chunk_pos, 1, 2, &[(0, 1), (0, 1)]));
    bag
}

#[test]
fn compression_variants_agree() {
    // Guard: the canonical inner bytes match what the helpers build.
    let built: Vec<u8> =
        [msg_record(0, 1, &i32payload(42)), msg_record(0, 2, &i32payload(7))].concat();
    assert_eq!(built, INNER.to_vec());

    let size = INNER.len() as u32;
    let lz4 = lz4_flex::block::compress(&INNER);
    let bags = vec![
        one_chunk_bag("none", &INNER, size),
        one_chunk_bag("bz2", &INNER_BZ2, size),
        one_chunk_bag("lz4", &lz4, size),
    ];
    let mut outputs = Vec::new();
    for bytes in bags {
        let mut bag = Bag::new_from_bytes(bytes);
        let msgs = bag.read_messages(None, None, None).unwrap();
        let rendered: Vec<(u64, u32, i32)> =
            msgs.iter().map(|m| (m.0, m.1, msg_i32(&m.2, "x"))).collect();
        outputs.push(rendered);
    }
    assert_eq!(outputs[0], vec![(1_000_000_000, 0, 42), (2_000_000_000, 0, 7)]);
    assert_eq!(outputs[0], outputs[1]);
    assert_eq!(outputs[0], outputs[2]);
}
