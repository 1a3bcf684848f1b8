//! The schema graph: primitive types, composite data types, and their
//! specification views and sizes.
//!
//! A `MsgType` owns constants and fields in definition order; a
//! `DataType` is a primitive, a fixed array, a variable vector, or a
//! nested complex type. Every complex reference is embedded by value, so
//! the graph is a tree (ROS types cannot reference themselves).
use vstd::prelude::*;

use crate::const_field::ConstField;
use crate::error::RosError;
use crate::field::Field;
use crate::msg::{cache_wf, lemma_cache_get_wf, spec_cache_get, MsgDefCache, MsgType};
use crate::strutil::{find_char, own_range, parse_usize, spec_find_char, spec_parse_usize, str_eq};

verus! {

/// A ROS primitive field type.
#[derive(Clone, Copy, Debug, PartialEq, Eq, Structural)]
pub enum PrimitiveDataType {
    /// `bool`.
    Bool,
    /// `int8` or `byte`.
    I8,
    /// `int16`.
    I16,
    /// `int32`.
    I32,
    /// `int64`.
    I64,
    /// `uint8` or `char`.
    U8,
    /// `uint16`.
    U16,
    /// `uint32`.
    U32,
    /// `uint64`.
    U64,
    /// `float32`, decoded as raw IEEE-754 bits.
    F32,
    /// `float64`, decoded as raw IEEE-754 bits.
    F64,
    /// `string`: a `u32` length prefix and raw bytes.
    Str,
    /// `time`: two `u32`s combined as `sec * 10^9 + ns`.
    Time,
    /// `duration`: same layout as `time`.
    Duration,
}

/// A field's data type.
#[derive(Debug)]
pub enum DataType {
    /// A single primitive value.
    Primitive(PrimitiveDataType),
    /// A `u32`-counted vector of primitives.
    PrimitiveVector(PrimitiveDataType),
    /// A fixed-length array of primitives.
    PrimitiveArray(usize, PrimitiveDataType),
    /// A single nested message.
    Complex(MsgType),
    /// A `u32`-counted vector of nested messages.
    ComplexVector(MsgType),
    /// A fixed-length array of nested messages.
    ComplexArray(usize, MsgType),
}

// ---------------------------------------------------------------------------
// Specification views
// ---------------------------------------------------------------------------

/// Specification view of [`DataType`].
pub ghost enum DataTypeV {
    Primitive(PrimitiveDataType),
    PrimitiveVector(PrimitiveDataType),
    PrimitiveArray(usize, PrimitiveDataType),
    Complex(MsgTypeV),
    ComplexVector(MsgTypeV),
    ComplexArray(usize, MsgTypeV),
}

/// Specification view of [`Field`].
pub ghost struct FieldV {
    pub field_name: Seq<char>,
    pub field_type: DataTypeV,
}

/// Specification view of [`ConstField`].
pub ghost struct ConstFieldV {
    pub const_type: PrimitiveDataType,
    pub const_name: Seq<char>,
    pub const_value: Seq<char>,
}

/// Specification view of [`MsgType`].
pub ghost struct MsgTypeV {
    pub constants: Seq<ConstFieldV>,
    pub fields: Seq<FieldV>,
    pub fixed_size: Option<usize>,
}

pub open spec fn dt_view(dt: DataType) -> DataTypeV
    decreases dt,
{
    match dt {
        DataType::Primitive(p) => DataTypeV::Primitive(p),
        DataType::PrimitiveVector(p) => DataTypeV::PrimitiveVector(p),
        DataType::PrimitiveArray(n, p) => DataTypeV::PrimitiveArray(n, p),
        DataType::Complex(m) => DataTypeV::Complex(msg_type_view(m)),
        DataType::ComplexVector(m) => DataTypeV::ComplexVector(msg_type_view(m)),
        DataType::ComplexArray(n, m) => DataTypeV::ComplexArray(n, msg_type_view(m)),
    }
}

pub open spec fn field_view(f: Field) -> FieldV
    decreases f,
{
    FieldV { field_name: f.field_name@, field_type: dt_view(f.field_type) }
}

pub open spec fn const_field_view(c: ConstField) -> ConstFieldV {
    ConstFieldV {
        const_type: c.const_type,
        const_name: c.const_name@,
        const_value: c.const_value@,
    }
}

pub open spec fn fields_view(fs: Seq<Field>) -> Seq<FieldV>
    decreases fs,
{
    if fs.len() == 0 {
        Seq::empty()
    } else {
        seq![field_view(fs[0])] + fields_view(fs.drop_first())
    }
}

pub open spec fn consts_view(cs: Seq<ConstField>) -> Seq<ConstFieldV> {
    Seq::new(cs.len(), |i: int| const_field_view(cs[i]))
}

pub open spec fn msg_type_view(m: MsgType) -> MsgTypeV
    decreases m,
{
    MsgTypeV {
        constants: consts_view(m.constants@),
        fields: fields_view(m.fields@),
        fixed_size: m.fixed_size,
    }
}

pub broadcast proof fn lemma_fields_view_len(fs: Seq<Field>)
    ensures
        #[trigger] fields_view(fs).len() == fs.len(),
    decreases fs,
{
    if fs.len() > 0 {
        lemma_fields_view_len(fs.drop_first());
    }
}

pub broadcast proof fn lemma_fields_view_index(fs: Seq<Field>, i: int)
    requires
        0 <= i < fs.len(),
    ensures
        fields_view(fs).len() == fs.len(),
        #[trigger] fields_view(fs)[i] == field_view(fs[i]),
    decreases fs,
{
    lemma_fields_view_len(fs);
    if i > 0 {
        lemma_fields_view_index(fs.drop_first(), i - 1);
    }
}

impl View for DataType {
    type V = DataTypeV;

    open spec fn view(&self) -> DataTypeV {
        dt_view(*self)
    }
}

impl View for Field {
    type V = FieldV;

    open spec fn view(&self) -> FieldV {
        field_view(*self)
    }
}

impl View for ConstField {
    type V = ConstFieldV;

    open spec fn view(&self) -> ConstFieldV {
        const_field_view(*self)
    }
}

impl View for MsgType {
    type V = MsgTypeV;

    open spec fn view(&self) -> MsgTypeV {
        msg_type_view(*self)
    }
}

impl DeepView for DataType {
    type V = DataTypeV;

    open spec fn deep_view(&self) -> DataTypeV {
        self@
    }
}

impl DeepView for Field {
    type V = FieldV;

    open spec fn deep_view(&self) -> FieldV {
        self@
    }
}

impl DeepView for ConstField {
    type V = ConstFieldV;

    open spec fn deep_view(&self) -> ConstFieldV {
        self@
    }
}

impl DeepView for MsgType {
    type V = MsgTypeV;

    open spec fn deep_view(&self) -> MsgTypeV {
        self@
    }
}

// ---------------------------------------------------------------------------
// Sizes
// ---------------------------------------------------------------------------

/// Fixed byte width of a primitive, or `None` for `string`.
pub open spec fn spec_prim_size(p: PrimitiveDataType) -> Option<usize> {
    match p {
        PrimitiveDataType::Bool => Some(1usize),
        PrimitiveDataType::I8 => Some(1usize),
        PrimitiveDataType::I16 => Some(2usize),
        PrimitiveDataType::I32 => Some(4usize),
        PrimitiveDataType::I64 => Some(8usize),
        PrimitiveDataType::U8 => Some(1usize),
        PrimitiveDataType::U16 => Some(2usize),
        PrimitiveDataType::U32 => Some(4usize),
        PrimitiveDataType::U64 => Some(8usize),
        PrimitiveDataType::F32 => Some(4usize),
        PrimitiveDataType::F64 => Some(8usize),
        PrimitiveDataType::Str => None,
        PrimitiveDataType::Time => Some(8usize),
        PrimitiveDataType::Duration => Some(8usize),
    }
}

/// Multiplies a known size by an element count; a product that does not
/// fit in `usize` counts as unknown.
pub open spec fn opt_size_mul(a: Option<usize>, n: usize) -> Option<usize> {
    match a {
        Some(s) => if s * n <= usize::MAX {
            Some((s * n) as usize)
        } else {
            None
        },
        None => None,
    }
}

/// Adds two known sizes; a sum that does not fit in `usize` counts as
/// unknown.
pub open spec fn opt_size_add(a: Option<usize>, b: Option<usize>) -> Option<usize> {
    match (a, b) {
        (Some(x), Some(y)) => if x + y <= usize::MAX {
            Some((x + y) as usize)
        } else {
            None
        },
        _ => None,
    }
}

/// The fixed byte width of a data type, or `None` where it depends on
/// the payload (strings, vectors, and complex types containing them).
pub open spec fn spec_dt_size(dt: DataTypeV) -> Option<usize>
    decreases dt,
{
    match dt {
        DataTypeV::Primitive(p) => spec_prim_size(p),
        DataTypeV::PrimitiveVector(_) => None,
        DataTypeV::PrimitiveArray(n, p) => opt_size_mul(spec_prim_size(p), n),
        DataTypeV::Complex(m) => spec_msg_size(m),
        DataTypeV::ComplexVector(_) => None,
        DataTypeV::ComplexArray(n, m) => opt_size_mul(spec_msg_size(m), n),
    }
}

/// The fixed byte width of a message: the sum of its field widths, if
/// every field is fixed-size. Constants contribute nothing.
pub open spec fn spec_msg_size(m: MsgTypeV) -> Option<usize>
    decreases m,
{
    spec_fields_size(m.fields)
}

pub open spec fn spec_fields_size(fs: Seq<FieldV>) -> Option<usize>
    decreases fs,
{
    if fs.len() == 0 {
        Some(0usize)
    } else {
        opt_size_add(spec_dt_size(fs[0].field_type), spec_fields_size(fs.drop_first()))
    }
}

// ---------------------------------------------------------------------------
// Well-formedness
// ---------------------------------------------------------------------------

/// A data type is well formed when every nested message carries its
/// correct memoised size.
pub open spec fn dt_wf(dt: DataTypeV) -> bool
    decreases dt,
{
    match dt {
        DataTypeV::Primitive(_) => true,
        DataTypeV::PrimitiveVector(_) => true,
        DataTypeV::PrimitiveArray(_, _) => true,
        DataTypeV::Complex(m) => msg_wf(m),
        DataTypeV::ComplexVector(m) => msg_wf(m),
        DataTypeV::ComplexArray(_, m) => msg_wf(m),
    }
}

/// A message type is well formed when its memoised size matches
/// [`spec_msg_size`] and all nested types are well formed.
pub open spec fn msg_wf(m: MsgTypeV) -> bool
    decreases m,
{
    m.fixed_size == spec_msg_size(m) && fields_wf(m.fields)
}

pub open spec fn fields_wf(fs: Seq<FieldV>) -> bool
    decreases fs,
{
    fs.len() == 0 || (dt_wf(fs[0].field_type) && fields_wf(fs.drop_first()))
}


// ---------------------------------------------------------------------------
// Name resolution
// ---------------------------------------------------------------------------

/// Resolves a non-primitive type name inside namespace `ns`: first the
/// exact (global) name, then `ns/<name>`, then the `std_msgs/<name>`
/// compatibility fallback.
pub open spec fn spec_lookup_msg(
    cv: Seq<(Seq<char>, MsgTypeV)>,
    ts: Seq<char>,
    ns: Seq<char>,
) -> Option<MsgTypeV> {
    match spec_cache_get(cv, ts) {
        Some(m) => Some(m),
        None => match spec_cache_get(cv, ns + "/"@ + ts) {
            Some(m) => Some(m),
            None => spec_cache_get(cv, "std_msgs/"@ + ts),
        },
    }
}

pub proof fn lemma_lookup_wf(cv: Seq<(Seq<char>, MsgTypeV)>, ts: Seq<char>, ns: Seq<char>)
    requires
        cache_wf(cv),
    ensures
        match spec_lookup_msg(cv, ts, ns) {
            Some(m) => msg_wf(m),
            None => true,
        },
{
    lemma_cache_get_wf(cv, ts);
    lemma_cache_get_wf(cv, ns + "/"@ + ts);
    lemma_cache_get_wf(cv, "std_msgs/"@ + ts);
}

/// Looks a type name up in the cache, trying the global name, the local
/// `namespace/<name>`, and the `std_msgs/<name>` fallback in turn.
pub fn lookup_msg_in_cache(
    msg_def_cache: &MsgDefCache,
    type_str: &str,
    namespace: &str,
) -> (r: Option<MsgType>)
    ensures
        match r {
            Some(m) => spec_lookup_msg(msg_def_cache@, type_str@, namespace@) == Some(m@),
            None => spec_lookup_msg(msg_def_cache@, type_str@, namespace@) is None,
        },
{
    match msg_def_cache.get(type_str) {
        Some(m) => {
            return Some(m.duplicate());
        },
        None => {},
    }
    let mut local = String::from_str(namespace);
    local.append("/");
    local.append(type_str);
    assert(local@ == namespace@ + "/"@ + type_str@);
    match msg_def_cache.get(local.as_str()) {
        Some(m) => {
            return Some(m.duplicate());
        },
        None => {},
    }
    let mut fallback = String::from_str("std_msgs/");
    fallback.append(type_str);
    assert(fallback@ == "std_msgs/"@ + type_str@);
    match msg_def_cache.get(fallback.as_str()) {
        Some(m) => Some(m.duplicate()),
        None => None,
    }
}

/// What [`DataType::try_from_string`] yields for a declared type.
pub open spec fn spec_try_from_string(
    cv: Seq<(Seq<char>, MsgTypeV)>,
    ts: Seq<char>,
    ns: Seq<char>,
) -> Result<DataTypeV, RosError> {
    match spec_find_char(ts, '[', 0) {
        Some(i) => {
            let elem = ts.subrange(0, i);
            let rem = ts.subrange(i + 1, ts.len() as int);
            match spec_find_char(rem, ']', 0) {
                None => Err(RosError::InvalidType),
                Some(j) => {
                    let content = rem.subrange(0, j);
                    let arr_len = if content.len() == 0 {
                        Ok(None)
                    } else {
                        match spec_parse_usize(content) {
                            Some(v) => if v <= usize::MAX {
                                Ok(Some(v as usize))
                            } else {
                                Err(RosError::InvalidType)
                            },
                            None => Err(RosError::InvalidType),
                        }
                    };
                    match arr_len {
                        Err(e) => Err(e),
                        Ok(l) => match PrimitiveDataType::spec_of_name(elem) {
                            Some(p) => match l {
                                Some(l) => Ok(DataTypeV::PrimitiveArray(l, p)),
                                None => Ok(DataTypeV::PrimitiveVector(p)),
                            },
                            None => match spec_lookup_msg(cv, elem, ns) {
                                None => Err(RosError::UnknownType),
                                Some(m) => match l {
                                    Some(l) => Ok(DataTypeV::ComplexArray(l, m)),
                                    None => Ok(DataTypeV::ComplexVector(m)),
                                },
                            },
                        },
                    }
                },
            }
        },
        None => match PrimitiveDataType::spec_of_name(ts) {
            Some(p) => Ok(DataTypeV::Primitive(p)),
            None => match spec_lookup_msg(cv, ts, ns) {
                None => Err(RosError::UnknownType),
                Some(m) => Ok(DataTypeV::Complex(m)),
            },
        },
    }
}

// ---------------------------------------------------------------------------
// Executable operations
// ---------------------------------------------------------------------------

impl PrimitiveDataType {
    /// The primitive named by `value`, with the aliases `byte` for
    /// `int8` and `char` for `uint8`.
    pub open spec fn spec_of_name(s: Seq<char>) -> Option<PrimitiveDataType> {
        if s == "bool"@ {
            Some(PrimitiveDataType::Bool)
        } else if s == "int8"@ || s == "byte"@ {
            Some(PrimitiveDataType::I8)
        } else if s == "int16"@ {
            Some(PrimitiveDataType::I16)
        } else if s == "int32"@ {
            Some(PrimitiveDataType::I32)
        } else if s == "int64"@ {
            Some(PrimitiveDataType::I64)
        } else if s == "uint8"@ || s == "char"@ {
            Some(PrimitiveDataType::U8)
        } else if s == "uint16"@ {
            Some(PrimitiveDataType::U16)
        } else if s == "uint32"@ {
            Some(PrimitiveDataType::U32)
        } else if s == "uint64"@ {
            Some(PrimitiveDataType::U64)
        } else if s == "float32"@ {
            Some(PrimitiveDataType::F32)
        } else if s == "float64"@ {
            Some(PrimitiveDataType::F64)
        } else if s == "string"@ {
            Some(PrimitiveDataType::Str)
        } else if s == "time"@ {
            Some(PrimitiveDataType::Time)
        } else if s == "duration"@ {
            Some(PrimitiveDataType::Duration)
        } else {
            None
        }
    }

    /// Parses a primitive type name.
    pub fn try_from_str(value: &str) -> (r: Result<PrimitiveDataType, RosError>)
        ensures
            match r {
                Ok(p) => PrimitiveDataType::spec_of_name(value@) == Some(p),
                Err(e) => PrimitiveDataType::spec_of_name(value@) is None && e
                    == RosError::UnknownType,
            },
    {
        if str_eq(value, "bool") {
            Ok(PrimitiveDataType::Bool)
        } else if str_eq(value, "int8") || str_eq(value, "byte") {
            Ok(PrimitiveDataType::I8)
        } else if str_eq(value, "int16") {
            Ok(PrimitiveDataType::I16)
        } else if str_eq(value, "int32") {
            Ok(PrimitiveDataType::I32)
        } else if str_eq(value, "int64") {
            Ok(PrimitiveDataType::I64)
        } else if str_eq(value, "uint8") || str_eq(value, "char") {
            Ok(PrimitiveDataType::U8)
        } else if str_eq(value, "uint16") {
            Ok(PrimitiveDataType::U16)
        } else if str_eq(value, "uint32") {
            Ok(PrimitiveDataType::U32)
        } else if str_eq(value, "uint64") {
            Ok(PrimitiveDataType::U64)
        } else if str_eq(value, "float32") {
            Ok(PrimitiveDataType::F32)
        } else if str_eq(value, "float64") {
            Ok(PrimitiveDataType::F64)
        } else if str_eq(value, "string") {
            Ok(PrimitiveDataType::Str)
        } else if str_eq(value, "time") {
            Ok(PrimitiveDataType::Time)
        } else if str_eq(value, "duration") {
            Ok(PrimitiveDataType::Duration)
        } else {
            Err(RosError::UnknownType)
        }
    }

    /// Fixed byte width, or `None` for `string`.
    pub fn known_size(&self) -> (r: Option<usize>)
        ensures
            r == spec_prim_size(*self),
    {
        match self {
            PrimitiveDataType::Bool => Some(1),
            PrimitiveDataType::I8 => Some(1),
            PrimitiveDataType::I16 => Some(2),
            PrimitiveDataType::I32 => Some(4),
            PrimitiveDataType::I64 => Some(8),
            PrimitiveDataType::U8 => Some(1),
            PrimitiveDataType::U16 => Some(2),
            PrimitiveDataType::U32 => Some(4),
            PrimitiveDataType::U64 => Some(8),
            PrimitiveDataType::F32 => Some(4),
            PrimitiveDataType::F64 => Some(8),
            PrimitiveDataType::Str => None,
            PrimitiveDataType::Time => Some(8),
            PrimitiveDataType::Duration => Some(8),
        }
    }
}

impl DataType {
    /// Fixed byte width, where the type is fixed-size. For well-formed
    /// types this is exactly [`spec_dt_size`].
    pub fn known_size(&self) -> (r: Option<usize>)
        ensures
            dt_wf(self@) ==> r == spec_dt_size(self@),
    {
        match self {
            DataType::Primitive(p) => p.known_size(),
            DataType::PrimitiveVector(_) => None,
            DataType::PrimitiveArray(n, p) => match p.known_size() {
                Some(s) => s.checked_mul(*n),
                None => None,
            },
            DataType::Complex(m) => m.fixed_size,
            DataType::ComplexVector(_) => None,
            DataType::ComplexArray(n, m) => match m.fixed_size {
                Some(s) => s.checked_mul(*n),
                None => None,
            },
        }
    }

    /// Parses a field's declared type inside namespace `namespace`:
    /// either a bare type name, or `<elem>[<maybe-int>]` for a fixed
    /// array (integer), a vector (empty brackets), or a malformed
    /// declaration. Non-primitive names resolve through the cache.
    pub fn try_from_string(
        msg_def_cache: &MsgDefCache,
        type_str: &str,
        namespace: &str,
    ) -> (r: Result<DataType, RosError>)
        ensures
            match r {
                Ok(dt) => spec_try_from_string(msg_def_cache@, type_str@, namespace@) == Ok::<
                    DataTypeV,
                    RosError,
                >(dt@) && (cache_wf(msg_def_cache@) ==> dt_wf(dt@)),
                Err(e) => spec_try_from_string(msg_def_cache@, type_str@, namespace@) == Err::<
                    DataTypeV,
                    RosError,
                >(e),
            },
    {
        let n = type_str.unicode_len();
        match find_char(type_str, '[', 0) {
            Some(i) => {
                let elem = own_range(type_str, 0, i);
                let rem = own_range(type_str, i + 1, n);
                let rn = rem.unicode_len();
                let is_prim = PrimitiveDataType::try_from_str(elem.as_str());
                let j = match find_char(rem.as_str(), ']', 0) {
                    None => {
                        return Err(RosError::InvalidType);
                    },
                    Some(j) => j,
                };
                let content = own_range(rem.as_str(), 0, j);
                let arr_len: Option<usize> = if content.as_str().unicode_len() == 0 {
                    None
                } else {
                    match parse_usize(content.as_str()) {
                        Some(v) => Some(v),
                        None => {
                            return Err(RosError::InvalidType);
                        },
                    }
                };
                match is_prim {
                    Ok(p) => match arr_len {
                        Some(l) => Ok(DataType::PrimitiveArray(l, p)),
                        None => Ok(DataType::PrimitiveVector(p)),
                    },
                    Err(_) => {
                        proof {
                            if cache_wf(msg_def_cache@) {
                                lemma_lookup_wf(msg_def_cache@, elem@, namespace@);
                            }
                        }
                        match lookup_msg_in_cache(msg_def_cache, elem.as_str(), namespace) {
                            None => Err(RosError::UnknownType),
                            Some(m) => match arr_len {
                                Some(l) => Ok(DataType::ComplexArray(l, m)),
                                None => Ok(DataType::ComplexVector(m)),
                            },
                        }
                    },
                }
            },
            None => {
                match PrimitiveDataType::try_from_str(type_str) {
                    Ok(p) => Ok(DataType::Primitive(p)),
                    Err(_) => {
                        proof {
                            if cache_wf(msg_def_cache@) {
                                lemma_lookup_wf(msg_def_cache@, type_str@, namespace@);
                            }
                        }
                        match lookup_msg_in_cache(msg_def_cache, type_str, namespace) {
                            None => Err(RosError::UnknownType),
                            Some(m) => Ok(DataType::Complex(m)),
                        }
                    },
                }
            },
        }
    }

    /// Duplicates the type, preserving its view.
    pub fn duplicate(&self) -> (r: DataType)
        ensures
            r@ == self@,
        decreases *self,
    {
        match self {
            DataType::Primitive(p) => DataType::Primitive(*p),
            DataType::PrimitiveVector(p) => DataType::PrimitiveVector(*p),
            DataType::PrimitiveArray(n, p) => DataType::PrimitiveArray(*n, *p),
            DataType::Complex(m) => DataType::Complex(m.duplicate()),
            DataType::ComplexVector(m) => DataType::ComplexVector(m.duplicate()),
            DataType::ComplexArray(n, m) => DataType::ComplexArray(*n, m.duplicate()),
        }
    }
}

} // verus!
