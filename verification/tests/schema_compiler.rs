//! The message-definition compiler: line grammar, name resolution,
//! sub-definitions and sizes.
use rustbag::data_type::{DataType, PrimitiveDataType};
use rustbag::error::RosError;
use rustbag::msg::MsgDefCache;
use rustbag::parse_msg::{map_line, parse_con_msg_def, try_const_map, try_field_map, MsgLine};
use rustbag::strutil::parse_usize;

fn compile(con_type: &str, def: &str) -> Result<rustbag::msg::MsgType, RosError> {
    let mut cache = MsgDefCache::new();
    parse_con_msg_def(&mut cache, con_type, def)
}

#[test]
fn primitive_names_and_aliases() {
    assert_eq!(PrimitiveDataType::try_from_str("bool"), Ok(PrimitiveDataType::Bool));
    assert_eq!(PrimitiveDataType::try_from_str("byte"), Ok(PrimitiveDataType::I8));
    assert_eq!(PrimitiveDataType::try_from_str("int8"), Ok(PrimitiveDataType::I8));
    assert_eq!(PrimitiveDataType::try_from_str("char"), Ok(PrimitiveDataType::U8));
    assert_eq!(PrimitiveDataType::try_from_str("uint8"), Ok(PrimitiveDataType::U8));
    assert_eq!(PrimitiveDataType::try_from_str("float64"), Ok(PrimitiveDataType::F64));
    assert_eq!(PrimitiveDataType::try_from_str("duration"), Ok(PrimitiveDataType::Duration));
    assert_eq!(PrimitiveDataType::try_from_str("int"), Err(RosError::UnknownType));
}

#[test]
fn primitive_sizes() {
    assert_eq!(PrimitiveDataType::Bool.known_size(), Some(1));
    assert_eq!(PrimitiveDataType::I16.known_size(), Some(2));
    assert_eq!(PrimitiveDataType::F32.known_size(), Some(4));
    assert_eq!(PrimitiveDataType::Time.known_size(), Some(8));
    assert_eq!(PrimitiveDataType::Str.known_size(), None);
}

#[test]
fn const_line_grammar() {
    let c = try_const_map("int32 X = 5").unwrap();
    assert_eq!(c.const_type, "int32");
    assert_eq!(c.const_name, "X");
    assert_eq!(c.const_value, "5");
    // No equals sign: not a constant.
    assert!(try_const_map("int32 x").is_none());
    // No space before the equals sign: not a constant.
    assert!(try_const_map("X=5").is_none());
}

#[test]
fn field_line_grammar() {
    let f = try_field_map("int32  x").unwrap();
    assert_eq!(f.field_type, "int32");
    assert_eq!(f.field_name, "x");
    assert!(try_field_map("lonely").is_none());
}

#[test]
fn map_line_prefers_constants() {
    match map_line("uint8 FLAG = 1").unwrap() {
        MsgLine::Const(c) => assert_eq!(c.const_name, "FLAG"),
        MsgLine::Field(f) => panic!("parsed as field: {:?}", f),
    }
    match map_line("uint8 flag").unwrap() {
        MsgLine::Field(f) => assert_eq!(f.field_name, "flag"),
        MsgLine::Const(c) => panic!("parsed as const: {:?}", c),
    }
    assert!(map_line("loneword").is_none());
}

#[test]
fn comments_and_blanks_are_dropped() {
    let m = compile("pkg/M", "# heading\n\nint32 a # trailing comment\n   \n").unwrap();
    assert_eq!(m.fields.len(), 1);
    assert_eq!(m.fields[0].field_name, "a");
    assert_eq!(m.known_size(), Some(4));
}

#[test]
fn constants_occupy_no_bytes() {
    let m = compile("pkg/M", "int32 X=5\nstring GREETING= hello\nint16 y\n").unwrap();
    assert_eq!(m.constants.len(), 2);
    assert_eq!(m.constants[0].const_name, "X");
    assert_eq!(m.constants[0].const_value, "5");
    assert_eq!(m.constants[1].const_value, "hello");
    assert_eq!(m.fields.len(), 1);
    assert_eq!(m.known_size(), Some(2));
}

#[test]
fn constant_of_unknown_type_fails() {
    assert_eq!(compile("pkg/M", "mystery X = 5\n").unwrap_err(), RosError::UnknownType);
}

#[test]
fn arrays_and_vectors() {
    let m = compile("pkg/M", "int16[3] a\nuint8[] b\nstring c\n").unwrap();
    assert!(matches!(m.fields[0].field_type, DataType::PrimitiveArray(3, PrimitiveDataType::I16)));
    assert!(matches!(m.fields[1].field_type, DataType::PrimitiveVector(PrimitiveDataType::U8)));
    assert!(matches!(m.fields[2].field_type, DataType::Primitive(PrimitiveDataType::Str)));
    // Vectors and strings have no fixed size.
    assert_eq!(m.known_size(), None);
    let fixed = compile("pkg/M2", "int16[3] a\n").unwrap();
    assert_eq!(fixed.known_size(), Some(6));
}

#[test]
fn malformed_array_declarations() {
    assert_eq!(compile("pkg/M", "int8[ x\n").unwrap_err(), RosError::InvalidType);
    assert_eq!(compile("pkg/M", "int8[abc] x\n").unwrap_err(), RosError::InvalidType);
}

#[test]
fn unknown_field_type_fails() {
    assert_eq!(compile("pkg/M", "Missing m\n").unwrap_err(), RosError::UnknownType);
}

#[test]
fn sub_definitions_compile_leaf_first() {
    let def = "pkg/Sub s\nint32 a\n================\nMSG: pkg/Sub\nuint8 b\n";
    let m = compile("pkg/Main", def).unwrap();
    assert_eq!(m.fields.len(), 2);
    assert_eq!(m.fields[0].field_name, "s");
    match &m.fields[0].field_type {
        DataType::Complex(sub) => {
            assert_eq!(sub.fields.len(), 1);
            assert_eq!(sub.fields[0].field_name, "b");
        },
        other => panic!("s is {:?}", other),
    }
    assert_eq!(m.known_size(), Some(5));
}

#[test]
fn local_namespace_resolution() {
    // `Sub` inside namespace `pkg` resolves to `pkg/Sub`.
    let def = "Sub s\n================\nMSG: pkg/Sub\nuint8 b\n";
    let m = compile("pkg/Main", def).unwrap();
    assert!(matches!(m.fields[0].field_type, DataType::Complex(_)));
}

#[test]
fn std_msgs_fallback_resolution() {
    let def = "Header h\n================\nMSG: std_msgs/Header\nuint32 seq\n";
    let m = compile("pkg/Main", def).unwrap();
    match &m.fields[0].field_type {
        DataType::Complex(h) => assert_eq!(h.fields[0].field_name, "seq"),
        other => panic!("h is {:?}", other),
    }
}

#[test]
fn sub_definition_without_header_fails() {
    let def = "int32 a\n================\nuint8 b\n";
    assert_eq!(compile("pkg/Main", def).unwrap_err(), RosError::InvalidType);
}

#[test]
fn cache_is_shared_across_connections() {
    let mut cache = MsgDefCache::new();
    let def1 = "int32 a\n================\nMSG: pkg/Sub\nuint8 b\n";
    parse_con_msg_def(&mut cache, "pkg/First", def1).unwrap();
    // The second connection references `pkg/Sub` without defining it.
    let m = parse_con_msg_def(&mut cache, "pkg/Second", "pkg/Sub s\n").unwrap();
    assert!(matches!(m.fields[0].field_type, DataType::Complex(_)));
    // A connection type already cached is reused as it is.
    let again = parse_con_msg_def(&mut cache, "pkg/First", "ignored garbage").unwrap();
    assert_eq!(again.fields.len(), 1);
    assert_eq!(again.fields[0].field_name, "a");
}

#[test]
fn nested_vector_of_complex() {
    let def = "pkg/P[] ps\n================\nMSG: pkg/P\nuint16 v\n";
    let m = compile("pkg/Main", def).unwrap();
    assert!(matches!(m.fields[0].field_type, DataType::ComplexVector(_)));
    assert_eq!(m.known_size(), None);
    let def2 = "pkg/P[4] ps\n================\nMSG: pkg/P\nuint16 v\n";
    let m2 = compile("pkg/Other", def2).unwrap();
    assert!(matches!(m2.fields[0].field_type, DataType::ComplexArray(4, _)));
    assert_eq!(m2.known_size(), Some(8));
}

#[test]
fn parse_usize_grammar() {
    assert_eq!(parse_usize("0"), Some(0));
    assert_eq!(parse_usize("123"), Some(123));
    assert_eq!(parse_usize(""), None);
    assert_eq!(parse_usize("12a"), None);
    assert_eq!(parse_usize("99999999999999999999999999"), None);
}
