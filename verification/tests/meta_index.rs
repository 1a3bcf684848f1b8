//! The tail index: record framing, aggregation and filtering.
use rustbag::error::RosError;
use rustbag::meta::Meta;
use rustbag::records::{parse_header_bytes, read_record_at, Compression, Record};

fn u32le(x: u32) -> Vec<u8> {
    x.to_le_bytes().to_vec()
}

fn field(name: &str, value: &[u8]) -> Vec<u8> {
    let mut nv = name.as_bytes().to_vec();
    nv.push(b'=');
    nv.extend_from_slice(value);
    let mut out = u32le(nv.len() as u32);
    out.extend_from_slice(&nv);
    out
}

fn rec(fields: &[Vec<u8>], data: &[u8]) -> Vec<u8> {
    let header: Vec<u8> = fields.concat();
    let mut out = u32le(header.len() as u32);
    out.extend_from_slice(&header);
    out.extend_from_slice(&u32le(data.len() as u32));
    out.extend_from_slice(data);
    out
}

fn ros_time(sec: u32, ns: u32) -> Vec<u8> {
    let mut v = u32le(sec);
    v.extend_from_slice(&u32le(ns));
    v
}

fn conn_record(conn: u32, topic: &str) -> Vec<u8> {
    let data: Vec<u8> = [
        field("topic", topic.as_bytes()),
        field("type", b"pkg/M"),
        field("md5sum", b"0"),
        field("message_definition", b"int32 x\n"),
    ]
    .concat();
    rec(&[field("op", &[0x07]), field("conn", &u32le(conn)), field("topic", topic.as_bytes())], &data)
}

fn chunk_info_record(chunk_pos: u32, start_sec: u32, end_sec: u32, entries: &[(u32, u32)]) -> Vec<u8> {
    let mut data = Vec::new();
    for (c, n) in entries {
        data.extend_from_slice(&u32le(*c));
        data.extend_from_slice(&u32le(*n));
    }
    rec(
        &[
            field("op", &[0x06]),
            field("ver", &u32le(1)),
            field("chunk_pos", &u32le(chunk_pos)),
            field("start_time", &ros_time(start_sec, 0)),
            field("end_time", &ros_time(end_sec, 0)),
            field("count", &u32le(entries.len() as u32)),
        ],
        &data,
    )
}

/// Two connections and three chunk infos, given out of start-time
/// order.
fn sample_tail() -> Vec<u8> {
    [
        conn_record(0, "/a"),
        conn_record(1, "/b"),
        chunk_info_record(300, 5, 6, &[(1, 1), (1, 1), (1, 1), (1, 1)]),
        chunk_info_record(100, 1, 2, &[(0, 1), (0, 1)]),
        chunk_info_record(200, 3, 4, &[(0, 1), (1, 1)]),
    ]
    .concat()
}

#[test]
fn counts_and_time_range() {
    let meta = Meta::try_new_from_bytes(&sample_tail()).unwrap();
    // Total message count is the sum of the chunk-info counts.
    assert_eq!(meta.num_messages(), 8);
    // Start and end are the minimum and maximum over the chunks.
    assert_eq!(meta.start_time(), 1_000_000_000);
    assert_eq!(meta.end_time(), 6_000_000_000);
}

#[test]
fn chunks_are_sorted_by_start_time() {
    let meta = Meta::try_new_from_bytes(&sample_tail()).unwrap();
    let all = meta.filter_chunks(None, None, None).unwrap();
    assert_eq!(all, vec![100, 200, 300]);
}

#[test]
fn empty_tail() {
    let meta = Meta::try_new_from_bytes(&[]).unwrap();
    assert_eq!(meta.num_messages(), 0);
    assert_eq!(meta.start_time(), u64::MAX);
    assert_eq!(meta.end_time(), 0);
    assert!(meta.topics().is_empty());
    assert!(meta.filter_chunks(None, None, None).unwrap().is_empty());
}

#[test]
fn stray_record_in_tail_is_rejected() {
    let mut tail = sample_tail();
    // A message-data record does not belong in the tail index.
    let stray = rec(
        &[field("op", &[0x02]), field("conn", &u32le(0)), field("time", &ros_time(1, 0))],
        &[1, 2, 3, 4],
    );
    tail.extend_from_slice(&stray);
    assert_eq!(Meta::try_new_from_bytes(&tail).unwrap_err(), RosError::InvalidHeader);
}

#[test]
fn chunk_info_entry_length_mismatch_is_rejected() {
    // count says 2 entries but only one 8-byte pair follows.
    let bad = rec(
        &[
            field("op", &[0x06]),
            field("ver", &u32le(1)),
            field("chunk_pos", &u32le(10)),
            field("start_time", &ros_time(1, 0)),
            field("end_time", &ros_time(2, 0)),
            field("count", &u32le(2)),
        ],
        &[0, 0, 0, 0, 1, 0, 0, 0],
    );
    assert_eq!(Meta::try_new_from_bytes(&bad).unwrap_err(), RosError::InvalidRecord);
}

#[test]
fn filter_by_topic() {
    let meta = Meta::try_new_from_bytes(&sample_tail()).unwrap();
    let a = vec![String::from("/a")];
    // Only chunks holding a message of connection 0 survive.
    assert_eq!(meta.filter_chunks(Some(&a), None, None).unwrap(), vec![100, 200]);
    let b = vec![String::from("/b")];
    assert_eq!(meta.filter_chunks(Some(&b), None, None).unwrap(), vec![200, 300]);
    // A topic the bag does not carry is silently skipped.
    let missing = vec![String::from("/nope")];
    assert_eq!(meta.filter_chunks(Some(&missing), None, None).unwrap(), Vec::<u32>::new());
}

#[test]
fn filter_by_time_window() {
    let meta = Meta::try_new_from_bytes(&sample_tail()).unwrap();
    // A chunk survives when its range overlaps [start, end].
    let mid = meta.filter_chunks(None, Some(3_000_000_000), Some(4_000_000_000)).unwrap();
    assert_eq!(mid, vec![200]);
    let from3 = meta.filter_chunks(None, Some(3_000_000_000), None).unwrap();
    assert_eq!(from3, vec![200, 300]);
    let upto2 = meta.filter_chunks(None, None, Some(2_000_000_000)).unwrap();
    assert_eq!(upto2, vec![100]);
}

#[test]
fn narrowing_never_adds_chunks() {
    let meta = Meta::try_new_from_bytes(&sample_tail()).unwrap();
    let wide = meta.filter_chunks(None, Some(1_000_000_000), Some(6_000_000_000)).unwrap();
    let narrow = meta.filter_chunks(None, Some(3_000_000_000), Some(4_000_000_000)).unwrap();
    for p in &narrow {
        assert!(wide.contains(p));
    }
    assert_eq!(wide, vec![100, 200, 300]);
}

#[test]
fn topics_and_connections() {
    let meta = Meta::try_new_from_bytes(&sample_tail()).unwrap();
    assert_eq!(meta.topics(), vec![String::from("/a"), String::from("/b")]);
    let schemas = meta.borrow_connection_to_id_message().unwrap();
    assert_eq!(schemas.len(), 2);
    assert_eq!(schemas[0].0, 0);
    assert_eq!(schemas[1].0, 1);
    assert_eq!(schemas[0].1.fields[0].field_name, "x");
}

#[test]
fn header_dispatch_and_errors() {
    // An unknown op value is rejected.
    let unknown = rec(&[field("op", &[0x7F])], &[]);
    let (_, _, _) = read_record_at(&unknown, 0)
        .err()
        .map(|e| (e, 0, 0))
        .unwrap_or((RosError::BackendError, 0, 0));
    assert!(matches!(
        parse_header_bytes(0, &field("op", &[0x7F])),
        Err(RosError::InvalidHeader)
    ));
    // A header without an op field is rejected.
    assert!(matches!(
        parse_header_bytes(0, &field("conn", &u32le(1))),
        Err(RosError::InvalidHeader)
    ));
    // A chunk with an unknown compression name is rejected.
    let h: Vec<u8> = [
        field("op", &[0x05]),
        field("compression", b"zip"),
        field("size", &u32le(4)),
    ]
    .concat();
    assert!(matches!(parse_header_bytes(0, &h), Err(RosError::InvalidHeader)));
    // A known compression parses.
    let h: Vec<u8> = [
        field("op", &[0x05]),
        field("compression", b"lz4"),
        field("size", &u32le(4)),
    ]
    .concat();
    match parse_header_bytes(7, &h).unwrap() {
        Record::Chunk(c) => {
            assert_eq!(c.compression, Compression::Lz4);
            assert_eq!(c.size, 4);
            assert_eq!(c.data_pos, 7);
        },
        other => panic!("{:?}", other),
    }
}

#[test]
fn truncated_record_is_out_of_bounds() {
    let whole = conn_record(0, "/a");
    assert_eq!(read_record_at(&whole[..whole.len() - 1], 0).unwrap_err(), RosError::OutOfBounds);
    assert_eq!(read_record_at(&[1, 2], 0).unwrap_err(), RosError::OutOfBounds);
}

#[test]
fn connection_data_requires_all_fields() {
    let data: Vec<u8> = [
        field("topic", b"/a"),
        field("type", b"pkg/M"),
        field("message_definition", b"int32 x\n"),
    ]
    .concat();
    assert_eq!(
        rustbag::records::ConnectionData::try_new(&data).unwrap_err(),
        RosError::InvalidHeader
    );
    let full: Vec<u8> = [
        field("topic", b"/a"),
        field("type", b"pkg/M"),
        field("md5sum", b"0"),
        field("message_definition", b"int32 x\n"),
        field("latching", b"1"),
    ]
    .concat();
    let cd = rustbag::records::ConnectionData::try_new(&full).unwrap();
    assert!(cd.latching);
    assert!(cd.caller_id.is_none());
    assert_eq!(cd.md5sum, "0");
}
