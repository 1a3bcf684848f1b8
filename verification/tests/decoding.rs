//! Payload decoding against compiled schemas.
use rustbag::data_type::DataType;
use rustbag::data_type::PrimitiveDataType;
use rustbag::decode::{decode_dt, decode_prim};
use rustbag::error::RosError;
use rustbag::msg::MsgDefCache;
use rustbag::msg_value::FieldValue;
use rustbag::parse_msg::parse_con_msg_def;

fn compile(def: &str) -> rustbag::msg::MsgType {
    let mut cache = MsgDefCache::new();
    parse_con_msg_def(&mut cache, "pkg/Main", def).unwrap()
}

#[test]
fn type_coverage() {
    let schema = compile("int32 i\nstring s\nfloat32[3] xs\nuint8[] vs\n");
    let payload: Vec<u8> = [
        vec![0x01, 0x00, 0x00, 0x00],
        vec![0x03, 0x00, 0x00, 0x00],
        b"abc".to_vec(),
        1.0f32.to_le_bytes().to_vec(),
        2.0f32.to_le_bytes().to_vec(),
        3.0f32.to_le_bytes().to_vec(),
        vec![0x02, 0x00, 0x00, 0x00, 0xDE, 0xAD],
    ]
    .concat();
    assert_eq!(payload.len(), 29);
    let (consumed, value) = schema.try_parse(&payload).unwrap();
    assert_eq!(consumed, 29);
    let msg = match value {
        FieldValue::Msg(m) => m,
        other => panic!("not a message: {:?}", other),
    };
    assert_eq!(msg.fields(), vec!["i", "s", "xs", "vs"]);
    assert!(matches!(msg.field("i"), Some(FieldValue::I32(1))));
    match msg.field("s") {
        Some(FieldValue::Str(s)) => assert_eq!(s, "abc"),
        other => panic!("s is {:?}", other),
    }
    match msg.field("xs") {
        Some(FieldValue::F32BitsArray(bits)) => {
            let floats: Vec<f32> = bits.iter().map(|b| f32::from_bits(*b)).collect();
            assert_eq!(floats, vec![1.0, 2.0, 3.0]);
        },
        other => panic!("xs is {:?}", other),
    }
    match msg.field("vs") {
        Some(FieldValue::U8Array(v)) => assert_eq!(v, &vec![0xDE, 0xAD]),
        other => panic!("vs is {:?}", other),
    }
    assert!(msg.field("missing").is_none());
}

#[test]
fn bool_accepts_only_exact_one() {
    let (c, v) = decode_prim(PrimitiveDataType::Bool, &[0x01], 0).unwrap();
    assert_eq!(c, 1);
    assert!(matches!(v, FieldValue::Bool(true)));
    let (_, v) = decode_prim(PrimitiveDataType::Bool, &[0x00], 0).unwrap();
    assert!(matches!(v, FieldValue::Bool(false)));
    // Any byte other than exactly 1 decodes as false.
    let (_, v) = decode_prim(PrimitiveDataType::Bool, &[0x02], 0).unwrap();
    assert!(matches!(v, FieldValue::Bool(false)));
}

#[test]
fn string_length_past_end_fails() {
    // Declared length 5 with only 2 bytes remaining.
    let bytes = [5u8, 0, 0, 0, b'a', b'b'];
    assert!(matches!(
        decode_prim(PrimitiveDataType::Str, &bytes, 0),
        Err(RosError::InvalidData)
    ));
}

#[test]
fn invalid_utf8_is_replaced() {
    // 0xFF is not valid UTF-8; it becomes U+FFFD, the rest survives.
    let bytes = [2u8, 0, 0, 0, 0xFF, b'a'];
    let (c, v) = decode_prim(PrimitiveDataType::Str, &bytes, 0).unwrap();
    assert_eq!(c, 6);
    match v {
        FieldValue::Str(s) => assert_eq!(s, "\u{FFFD}a"),
        other => panic!("not a string: {:?}", other),
    }
}

#[test]
fn time_combines_seconds_and_nanoseconds() {
    let bytes: Vec<u8> = [1u32.to_le_bytes().to_vec(), 5u32.to_le_bytes().to_vec()].concat();
    let (c, v) = decode_prim(PrimitiveDataType::Time, &bytes, 0).unwrap();
    assert_eq!(c, 8);
    assert!(matches!(v, FieldValue::Time(1_000_000_005)));
    let (_, v) = decode_prim(PrimitiveDataType::Duration, &bytes, 0).unwrap();
    assert!(matches!(v, FieldValue::Duration(1_000_000_005)));
}

#[test]
fn signed_and_wide_primitives() {
    let (_, v) = decode_prim(PrimitiveDataType::I8, &[0xFF], 0).unwrap();
    assert!(matches!(v, FieldValue::I8(-1)));
    let (_, v) = decode_prim(PrimitiveDataType::I16, &(-2i16).to_le_bytes(), 0).unwrap();
    assert!(matches!(v, FieldValue::I16(-2)));
    let (_, v) = decode_prim(PrimitiveDataType::I64, &(-3i64).to_le_bytes(), 0).unwrap();
    assert!(matches!(v, FieldValue::I64(-3)));
    let (_, v) = decode_prim(PrimitiveDataType::U64, &7u64.to_le_bytes(), 0).unwrap();
    assert!(matches!(v, FieldValue::U64(7)));
    let (_, v) = decode_prim(PrimitiveDataType::F64, &1.5f64.to_le_bytes(), 0).unwrap();
    match v {
        FieldValue::F64Bits(b) => assert_eq!(f64::from_bits(b), 1.5),
        other => panic!("{:?}", other),
    }
}

#[test]
fn vector_reads_count_prefix() {
    let dt = DataType::PrimitiveVector(PrimitiveDataType::U16);
    let bytes: Vec<u8> = [
        2u32.to_le_bytes().to_vec(),
        10u16.to_le_bytes().to_vec(),
        20u16.to_le_bytes().to_vec(),
    ]
    .concat();
    let (c, v) = decode_dt(&dt, &bytes, 0).unwrap();
    assert_eq!(c, 8);
    match v {
        FieldValue::U16Array(xs) => assert_eq!(xs, vec![10, 20]),
        other => panic!("{:?}", other),
    }
}

#[test]
fn truncated_payload_fails() {
    let schema = compile("int64 a\n");
    assert!(matches!(schema.try_parse(&[1, 2, 3]), Err(RosError::InvalidData)));
}

#[test]
fn trailing_bytes_are_ignored() {
    let schema = compile("uint16 a\n");
    let (c, v) = schema.try_parse(&[7, 0, 99, 99, 99]).unwrap();
    assert_eq!(c, 2);
    match v {
        FieldValue::Msg(m) => assert!(matches!(m.field("a"), Some(FieldValue::U16(7)))),
        other => panic!("{:?}", other),
    }
}

#[test]
fn nested_message_decode() {
    let def = "pkg/Point p\nuint8 tag\n================\nMSG: pkg/Point\nint16 x\nint16 y\n";
    let schema = compile(def);
    assert_eq!(schema.known_size(), Some(5));
    let payload: Vec<u8> = [
        3i16.to_le_bytes().to_vec(),
        (-4i16).to_le_bytes().to_vec(),
        vec![9u8],
    ]
    .concat();
    let (c, v) = schema.try_parse(&payload).unwrap();
    assert_eq!(c, 5);
    let m = match v {
        FieldValue::Msg(m) => m,
        other => panic!("{:?}", other),
    };
    match m.field("p") {
        Some(FieldValue::Msg(p)) => {
            assert!(matches!(p.field("x"), Some(FieldValue::I16(3))));
            assert!(matches!(p.field("y"), Some(FieldValue::I16(-4))));
        },
        other => panic!("p is {:?}", other),
    }
    assert!(matches!(m.field("tag"), Some(FieldValue::U8(9))));
}

#[test]
fn decode_round_trip_on_re_emitted_payload() {
    // Re-emit the decoded values of a payload in bag encoding by hand
    // and parse again: the same values and the same consumed count.
    let schema = compile("uint32 n\nstring s\nbool b\n");
    let payload: Vec<u8> = [
        7u32.to_le_bytes().to_vec(),
        2u32.to_le_bytes().to_vec(),
        b"hi".to_vec(),
        vec![1u8],
    ]
    .concat();
    let (c1, v1) = schema.try_parse(&payload).unwrap();
    assert_eq!(c1, payload.len());
    let m = match v1 {
        FieldValue::Msg(m) => m,
        other => panic!("{:?}", other),
    };
    let n = match m.field("n") {
        Some(FieldValue::U32(n)) => *n,
        other => panic!("{:?}", other),
    };
    let s = match m.field("s") {
        Some(FieldValue::Str(s)) => s.clone(),
        other => panic!("{:?}", other),
    };
    let b = match m.field("b") {
        Some(FieldValue::Bool(b)) => *b,
        other => panic!("{:?}", other),
    };
    let mut re_emitted = n.to_le_bytes().to_vec();
    re_emitted.extend_from_slice(&(s.len() as u32).to_le_bytes());
    re_emitted.extend_from_slice(s.as_bytes());
    re_emitted.push(if b { 1 } else { 0 });
    assert_eq!(re_emitted, payload);
    let (c2, _) = schema.try_parse(&re_emitted).unwrap();
    assert_eq!(c2, re_emitted.len());
}
