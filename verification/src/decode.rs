//! The schema decoder: walks a schema over little-endian payload bytes
//! and produces typed values.
//!
//! Numbers are little-endian; strings are a `u32` length and raw bytes
//! decoded as lossy UTF-8; vectors are a `u32` count and elements;
//! fixed arrays are bare elements; nested messages consume their fields
//! in definition order; constants consume nothing. A decode that runs
//! past the end of the buffer fails; trailing bytes are ignored.
use vstd::prelude::*;

use crate::data_type::{DataType, DataTypeV, FieldV, MsgTypeV, PrimitiveDataType};
use crate::error::RosError;
use crate::foreign::{bytes_to_string_lossy, spec_lossy_chars};
use crate::msg::MsgType;
use crate::msg_value::{field_value_view, FieldValue, FieldValueV, MsgValue, MsgValueV};
use crate::wire::{
    bytes_range, read_time_le, read_u16_le, read_u32_le, read_u64_le, spec_time_at, spec_u16_at,
    spec_u32_at, spec_u64_at,
};

verus! {

// ---------------------------------------------------------------------------
// Specification
// ---------------------------------------------------------------------------

/// Decodes one string: `u32` length, then that many bytes as lossy
/// UTF-8. Fails when the declared length runs past the buffer end.
pub open spec fn spec_decode_str(b: Seq<u8>, pos: int) -> Option<(int, Seq<char>)> {
    if pos + 4 > b.len() {
        None
    } else {
        let n = spec_u32_at(b, pos) as int;
        if n > b.len() - pos - 4 {
            None
        } else {
            Some((4 + n, spec_lossy_chars(b.subrange(pos + 4, pos + 4 + n))))
        }
    }
}

/// Decodes one primitive value at `pos`.
pub open spec fn spec_decode_prim(p: PrimitiveDataType, b: Seq<u8>, pos: int) -> Option<
    (int, FieldValueV),
> {
    match p {
        PrimitiveDataType::Bool => if pos + 1 <= b.len() {
            Some((1int, FieldValueV::Bool(b[pos] == 1)))
        } else {
            None
        },
        PrimitiveDataType::I8 => if pos + 1 <= b.len() {
            Some((1int, FieldValueV::I8(b[pos] as i8)))
        } else {
            None
        },
        PrimitiveDataType::I16 => if pos + 2 <= b.len() {
            Some((2int, FieldValueV::I16(spec_u16_at(b, pos) as i16)))
        } else {
            None
        },
        PrimitiveDataType::I32 => if pos + 4 <= b.len() {
            Some((4int, FieldValueV::I32(spec_u32_at(b, pos) as i32)))
        } else {
            None
        },
        PrimitiveDataType::I64 => if pos + 8 <= b.len() {
            Some((8int, FieldValueV::I64(spec_u64_at(b, pos) as i64)))
        } else {
            None
        },
        PrimitiveDataType::U8 => if pos + 1 <= b.len() {
            Some((1int, FieldValueV::U8(b[pos])))
        } else {
            None
        },
        PrimitiveDataType::U16 => if pos + 2 <= b.len() {
            Some((2int, FieldValueV::U16(spec_u16_at(b, pos))))
        } else {
            None
        },
        PrimitiveDataType::U32 => if pos + 4 <= b.len() {
            Some((4int, FieldValueV::U32(spec_u32_at(b, pos))))
        } else {
            None
        },
        PrimitiveDataType::U64 => if pos + 8 <= b.len() {
            Some((8int, FieldValueV::U64(spec_u64_at(b, pos))))
        } else {
            None
        },
        PrimitiveDataType::F32 => if pos + 4 <= b.len() {
            Some((4int, FieldValueV::F32Bits(spec_u32_at(b, pos))))
        } else {
            None
        },
        PrimitiveDataType::F64 => if pos + 8 <= b.len() {
            Some((8int, FieldValueV::F64Bits(spec_u64_at(b, pos))))
        } else {
            None
        },
        PrimitiveDataType::Str => match spec_decode_str(b, pos) {
            Some((c, s)) => Some((c, FieldValueV::Str(s))),
            None => None,
        },
        PrimitiveDataType::Time => if pos + 8 <= b.len() {
            Some((8int, FieldValueV::Time(spec_time_at(b, pos))))
        } else {
            None
        },
        PrimitiveDataType::Duration => if pos + 8 <= b.len() {
            Some((8int, FieldValueV::Duration(spec_time_at(b, pos))))
        } else {
            None
        },
    }
}

/// Decodes `k` consecutive strings.
pub open spec fn spec_decode_str_seq(k: int, b: Seq<u8>, pos: int) -> Option<
    (int, Seq<Seq<char>>),
>
    decreases k,
{
    if k <= 0 {
        Some((0int, Seq::empty()))
    } else {
        match spec_decode_str(b, pos) {
            None => None,
            Some((c1, s)) => match spec_decode_str_seq(k - 1, b, pos + c1) {
                None => None,
                Some((c2, ss)) => Some((c1 + c2, seq![s] + ss)),
            },
        }
    }
}

/// Decodes `k` consecutive elements of primitive type `p` (the layout
/// of both fixed arrays and the element part of vectors).
pub open spec fn spec_decode_prim_array(p: PrimitiveDataType, k: int, b: Seq<u8>, pos: int)
    -> Option<(int, FieldValueV)>
    recommends
        k >= 0,
        0 <= pos <= b.len(),
{
    match p {
        PrimitiveDataType::Bool => if k <= b.len() - pos {
            Some((k, FieldValueV::BoolArray(Seq::new(k as nat, |i: int| b[pos + i] == 1))))
        } else {
            None
        },
        PrimitiveDataType::I8 => if k <= b.len() - pos {
            Some((k, FieldValueV::I8Array(Seq::new(k as nat, |i: int| b[pos + i] as i8))))
        } else {
            None
        },
        PrimitiveDataType::I16 => if 2 * k <= b.len() - pos {
            Some(
                (
                    2 * k,
                    FieldValueV::I16Array(
                        Seq::new(k as nat, |i: int| spec_u16_at(b, pos + 2 * i) as i16),
                    ),
                ),
            )
        } else {
            None
        },
        PrimitiveDataType::I32 => if 4 * k <= b.len() - pos {
            Some(
                (
                    4 * k,
                    FieldValueV::I32Array(
                        Seq::new(k as nat, |i: int| spec_u32_at(b, pos + 4 * i) as i32),
                    ),
                ),
            )
        } else {
            None
        },
        PrimitiveDataType::I64 => if 8 * k <= b.len() - pos {
            Some(
                (
                    8 * k,
                    FieldValueV::I64Array(
                        Seq::new(k as nat, |i: int| spec_u64_at(b, pos + 8 * i) as i64),
                    ),
                ),
            )
        } else {
            None
        },
        PrimitiveDataType::U8 => if k <= b.len() - pos {
            Some((k, FieldValueV::U8Array(Seq::new(k as nat, |i: int| b[pos + i]))))
        } else {
            None
        },
        PrimitiveDataType::U16 => if 2 * k <= b.len() - pos {
            Some(
                (
                    2 * k,
                    FieldValueV::U16Array(Seq::new(k as nat, |i: int| spec_u16_at(b, pos + 2 * i))),
                ),
            )
        } else {
            None
        },
        PrimitiveDataType::U32 => if 4 * k <= b.len() - pos {
            Some(
                (
                    4 * k,
                    FieldValueV::U32Array(Seq::new(k as nat, |i: int| spec_u32_at(b, pos + 4 * i))),
                ),
            )
        } else {
            None
        },
        PrimitiveDataType::U64 => if 8 * k <= b.len() - pos {
            Some(
                (
                    8 * k,
                    FieldValueV::U64Array(Seq::new(k as nat, |i: int| spec_u64_at(b, pos + 8 * i))),
                ),
            )
        } else {
            None
        },
        PrimitiveDataType::F32 => if 4 * k <= b.len() - pos {
            Some(
                (
                    4 * k,
                    FieldValueV::F32BitsArray(
                        Seq::new(k as nat, |i: int| spec_u32_at(b, pos + 4 * i)),
                    ),
                ),
            )
        } else {
            None
        },
        PrimitiveDataType::F64 => if 8 * k <= b.len() - pos {
            Some(
                (
                    8 * k,
                    FieldValueV::F64BitsArray(
                        Seq::new(k as nat, |i: int| spec_u64_at(b, pos + 8 * i)),
                    ),
                ),
            )
        } else {
            None
        },
        PrimitiveDataType::Str => match spec_decode_str_seq(k, b, pos) {
            Some((c, ss)) => Some((c, FieldValueV::StrArray(ss))),
            None => None,
        },
        PrimitiveDataType::Time => if 8 * k <= b.len() - pos {
            Some(
                (
                    8 * k,
                    FieldValueV::TimeArray(Seq::new(k as nat, |i: int| spec_time_at(b, pos + 8 * i))),
                ),
            )
        } else {
            None
        },
        PrimitiveDataType::Duration => if 8 * k <= b.len() - pos {
            Some(
                (
                    8 * k,
                    FieldValueV::DurationArray(
                        Seq::new(k as nat, |i: int| spec_time_at(b, pos + 8 * i)),
                    ),
                ),
            )
        } else {
            None
        },
    }
}

/// Decodes one value of type `dt` at `pos`; the result is the byte
/// count consumed and the value.
pub open spec fn spec_decode_dt(dt: DataTypeV, b: Seq<u8>, pos: int) -> Option<
    (int, FieldValueV),
>
    decreases dt, 1int, 0int,
{
    match dt {
        DataTypeV::Primitive(p) => spec_decode_prim(p, b, pos),
        DataTypeV::PrimitiveArray(k, p) => spec_decode_prim_array(p, k as int, b, pos),
        DataTypeV::PrimitiveVector(p) => if pos + 4 > b.len() {
            None
        } else {
            let k = spec_u32_at(b, pos) as int;
            match spec_decode_prim_array(p, k, b, pos + 4) {
                Some((c, v)) => Some((4 + c, v)),
                None => None,
            }
        },
        DataTypeV::Complex(m) => match spec_decode_msg(m, b, pos) {
            Some((c, mv)) => Some((c, FieldValueV::Msg(mv))),
            None => None,
        },
        DataTypeV::ComplexArray(k, m) => match spec_decode_msg_seq(m, k as int, b, pos) {
            Some((c, vs)) => Some((c, FieldValueV::MsgArray(vs))),
            None => None,
        },
        DataTypeV::ComplexVector(m) => if pos + 4 > b.len() {
            None
        } else {
            let k = spec_u32_at(b, pos) as int;
            match spec_decode_msg_seq(m, k, b, pos + 4) {
                Some((c, vs)) => Some((4 + c, FieldValueV::MsgArray(vs))),
                None => None,
            }
        },
    }
}

/// Decodes one message: its fields in definition order.
pub open spec fn spec_decode_msg(m: MsgTypeV, b: Seq<u8>, pos: int) -> Option<(int, MsgValueV)>
    decreases m, 0int, 0int,
{
    match spec_decode_fields(m.fields, b, pos) {
        Some((c, named)) => Some((c, MsgValueV { fields: named })),
        None => None,
    }
}

/// Decodes a run of fields, threading the position.
pub open spec fn spec_decode_fields(fs: Seq<FieldV>, b: Seq<u8>, pos: int) -> Option<
    (int, Seq<(Seq<char>, FieldValueV)>),
>
    decreases fs, 1int, 0int,
{
    if fs.len() == 0 {
        Some((0int, Seq::empty()))
    } else {
        match spec_decode_dt(fs[0].field_type, b, pos) {
            None => None,
            Some((c1, v)) => match spec_decode_fields(fs.drop_first(), b, pos + c1) {
                None => None,
                Some((c2, named)) => Some((c1 + c2, seq![(fs[0].field_name, v)] + named)),
            },
        }
    }
}

/// Decodes `k` consecutive messages of one type.
pub open spec fn spec_decode_msg_seq(m: MsgTypeV, k: int, b: Seq<u8>, pos: int) -> Option<
    (int, Seq<MsgValueV>),
>
    decreases m, 1int, k,
{
    if k <= 0 {
        Some((0int, Seq::empty()))
    } else {
        match spec_decode_msg(m, b, pos) {
            None => None,
            Some((c1, mv)) => match spec_decode_msg_seq(m, k - 1, b, pos + c1) {
                None => None,
                Some((c2, vs)) => Some((c1 + c2, seq![mv] + vs)),
            },
        }
    }
}

/// What [`MsgType::try_parse`] returns: the consumed byte count and the
/// decoded message, or the decode failure.
pub open spec fn spec_try_parse(m: MsgTypeV, b: Seq<u8>) -> Result<(int, FieldValueV), RosError> {
    match spec_decode_msg(m, b, 0) {
        Some((c, mv)) => Ok((c, FieldValueV::Msg(mv))),
        None => Err(RosError::InvalidData),
    }
}

// ---------------------------------------------------------------------------
// Executable decoding
// ---------------------------------------------------------------------------

/// Decodes one string at `pos`.
fn decode_str(b: &[u8], pos: usize) -> (r: Result<(usize, String), RosError>)
    requires
        pos <= b@.len(),
    ensures
        match r {
            Ok((c, s)) => spec_decode_str(b@, pos as int) == Some((c as int, s@)) && pos + c
                <= b@.len(),
            Err(e) => spec_decode_str(b@, pos as int) is None && e == RosError::InvalidData,
        },
{
    let n = b.len();
    if n - pos < 4 {
        return Err(RosError::InvalidData);
    }
    let sl = read_u32_le(b, pos) as usize;
    if sl > n - pos - 4 {
        return Err(RosError::InvalidData);
    }
    let raw = bytes_range(b, pos + 4, pos + 4 + sl);
    let s = bytes_to_string_lossy(raw.as_slice());
    Ok((4 + sl, s))
}

/// Decodes one primitive value at `pos`.
pub fn decode_prim(p: PrimitiveDataType, b: &[u8], pos: usize) -> (r: Result<
    (usize, FieldValue),
    RosError,
>)
    requires
        pos <= b@.len(),
    ensures
        match r {
            Ok((c, v)) => spec_decode_prim(p, b@, pos as int) == Some((c as int, v@)) && pos + c
                <= b@.len(),
            Err(e) => spec_decode_prim(p, b@, pos as int) is None && e == RosError::InvalidData,
        },
{
    let n = b.len();
    match p {
        PrimitiveDataType::Bool => {
            if n - pos < 1 {
                return Err(RosError::InvalidData);
            }
            Ok((1, FieldValue::Bool(b[pos] == 1)))
        },
        PrimitiveDataType::I8 => {
            if n - pos < 1 {
                return Err(RosError::InvalidData);
            }
            Ok((1, FieldValue::I8(b[pos] as i8)))
        },
        PrimitiveDataType::I16 => {
            if n - pos < 2 {
                return Err(RosError::InvalidData);
            }
            Ok((2, FieldValue::I16(read_u16_le(b, pos) as i16)))
        },
        PrimitiveDataType::I32 => {
            if n - pos < 4 {
                return Err(RosError::InvalidData);
            }
            Ok((4, FieldValue::I32(read_u32_le(b, pos) as i32)))
        },
        PrimitiveDataType::I64 => {
            if n - pos < 8 {
                return Err(RosError::InvalidData);
            }
            Ok((8, FieldValue::I64(read_u64_le(b, pos) as i64)))
        },
        PrimitiveDataType::U8 => {
            if n - pos < 1 {
                return Err(RosError::InvalidData);
            }
            Ok((1, FieldValue::U8(b[pos])))
        },
        PrimitiveDataType::U16 => {
            if n - pos < 2 {
                return Err(RosError::InvalidData);
            }
            Ok((2, FieldValue::U16(read_u16_le(b, pos))))
        },
        PrimitiveDataType::U32 => {
            if n - pos < 4 {
                return Err(RosError::InvalidData);
            }
            Ok((4, FieldValue::U32(read_u32_le(b, pos))))
        },
        PrimitiveDataType::U64 => {
            if n - pos < 8 {
                return Err(RosError::InvalidData);
            }
            Ok((8, FieldValue::U64(read_u64_le(b, pos))))
        },
        PrimitiveDataType::F32 => {
            if n - pos < 4 {
                return Err(RosError::InvalidData);
            }
            Ok((4, FieldValue::F32Bits(read_u32_le(b, pos))))
        },
        PrimitiveDataType::F64 => {
            if n - pos < 8 {
                return Err(RosError::InvalidData);
            }
            Ok((8, FieldValue::F64Bits(read_u64_le(b, pos))))
        },
        PrimitiveDataType::Str => match decode_str(b, pos) {
            Ok((c, s)) => Ok((c, FieldValue::Str(s))),
            Err(e) => Err(e),
        },
        PrimitiveDataType::Time => {
            if n - pos < 8 {
                return Err(RosError::InvalidData);
            }
            Ok((8, FieldValue::Time(read_time_le(b, pos))))
        },
        PrimitiveDataType::Duration => {
            if n - pos < 8 {
                return Err(RosError::InvalidData);
            }
            Ok((8, FieldValue::Duration(read_time_le(b, pos))))
        },
    }
}

/// Decodes `k` consecutive elements of primitive type `p`.
pub fn decode_prim_array(p: PrimitiveDataType, k: usize, b: &[u8], pos: usize) -> (r: Result<
    (usize, FieldValue),
    RosError,
>)
    requires
        pos <= b@.len(),
    ensures
        match r {
            Ok((c, v)) => spec_decode_prim_array(p, k as int, b@, pos as int) == Some(
                (c as int, v@),
            ) && pos + c <= b@.len(),
            Err(e) => spec_decode_prim_array(p, k as int, b@, pos as int) is None && e
                == RosError::InvalidData,
        },
{
    let n = b.len();
    let rem = n - pos;
    match p {
        PrimitiveDataType::Bool => {
            if k > rem {
                return Err(RosError::InvalidData);
            }
            let mut out: Vec<bool> = Vec::new();
            let mut i: usize = 0;
            while i < k
                invariant
                    0 <= i <= k,
                    pos + k <= n <= b@.len(),
                    n == b@.len(),
                    out@.len() == i,
                    forall|j: int| 0 <= j < i ==> out@[j] == (b@[pos + j] == 1),
                decreases k - i,
            {
                out.push(b[pos + i] == 1);
                i = i + 1;
            }
            assert(out@ =~= Seq::new(k as nat, |i: int| b@[pos as int + i] == 1));
            Ok((k, FieldValue::BoolArray(out)))
        },
        PrimitiveDataType::I8 => {
            if k > rem {
                return Err(RosError::InvalidData);
            }
            let mut out: Vec<i8> = Vec::new();
            let mut i: usize = 0;
            while i < k
                invariant
                    0 <= i <= k,
                    pos + k <= n <= b@.len(),
                    n == b@.len(),
                    out@.len() == i,
                    forall|j: int| 0 <= j < i ==> out@[j] == b@[pos + j] as i8,
                decreases k - i,
            {
                out.push(b[pos + i] as i8);
                i = i + 1;
            }
            assert(out@ =~= Seq::new(k as nat, |i: int| b@[pos as int + i] as i8));
            Ok((k, FieldValue::I8Array(out)))
        },
        PrimitiveDataType::I16 => {
            if k > rem / 2 {
                proof {
                    assert(2 * (k as int) > rem);
                }
                return Err(RosError::InvalidData);
            }
            assert(2 * k <= rem);
            let mut out: Vec<i16> = Vec::new();
            let mut i: usize = 0;
            while i < k
                invariant
                    0 <= i <= k,
                    pos + 2 * k <= n <= b@.len(),
                    n == b@.len(),
                    out@.len() == i,
                    forall|j: int|
                        0 <= j < i ==> out@[j] == spec_u16_at(b@, pos + 2 * j) as i16,
                decreases k - i,
            {
                out.push(read_u16_le(b, pos + 2 * i) as i16);
                i = i + 1;
            }
            assert(out@ =~= Seq::new(k as nat, |i: int| spec_u16_at(b@, pos + 2 * i) as i16));
            Ok((2 * k, FieldValue::I16Array(out)))
        },
        PrimitiveDataType::I32 => {
            if k > rem / 4 {
                proof {
                    assert(4 * (k as int) > rem);
                }
                return Err(RosError::InvalidData);
            }
            assert(4 * k <= rem);
            let mut out: Vec<i32> = Vec::new();
            let mut i: usize = 0;
            while i < k
                invariant
                    0 <= i <= k,
                    pos + 4 * k <= n <= b@.len(),
                    n == b@.len(),
                    out@.len() == i,
                    forall|j: int|
                        0 <= j < i ==> out@[j] == spec_u32_at(b@, pos + 4 * j) as i32,
                decreases k - i,
            {
                out.push(read_u32_le(b, pos + 4 * i) as i32);
                i = i + 1;
            }
            assert(out@ =~= Seq::new(k as nat, |i: int| spec_u32_at(b@, pos + 4 * i) as i32));
            Ok((4 * k, FieldValue::I32Array(out)))
        },
        PrimitiveDataType::I64 => {
            if k > rem / 8 {
                proof {
                    assert(8 * (k as int) > rem);
                }
                return Err(RosError::InvalidData);
            }
            assert(8 * k <= rem);
            let mut out: Vec<i64> = Vec::new();
            let mut i: usize = 0;
            while i < k
                invariant
                    0 <= i <= k,
                    pos + 8 * k <= n <= b@.len(),
                    n == b@.len(),
                    out@.len() == i,
                    forall|j: int|
                        0 <= j < i ==> out@[j] == spec_u64_at(b@, pos + 8 * j) as i64,
                decreases k - i,
            {
                out.push(read_u64_le(b, pos + 8 * i) as i64);
                i = i + 1;
            }
            assert(out@ =~= Seq::new(k as nat, |i: int| spec_u64_at(b@, pos + 8 * i) as i64));
            Ok((8 * k, FieldValue::I64Array(out)))
        },
        PrimitiveDataType::U8 => {
            if k > rem {
                return Err(RosError::InvalidData);
            }
            let out = bytes_range(b, pos, pos + k);
            assert(out@ =~= Seq::new(k as nat, |i: int| b@[pos as int + i]));
            Ok((k, FieldValue::U8Array(out)))
        },
        PrimitiveDataType::U16 => {
            if k > rem / 2 {
                proof {
                    assert(2 * (k as int) > rem);
                }
                return Err(RosError::InvalidData);
            }
            assert(2 * k <= rem);
            let mut out: Vec<u16> = Vec::new();
            let mut i: usize = 0;
            while i < k
                invariant
                    0 <= i <= k,
                    pos + 2 * k <= n <= b@.len(),
                    n == b@.len(),
                    out@.len() == i,
                    forall|j: int| 0 <= j < i ==> out@[j] == spec_u16_at(b@, pos + 2 * j),
                decreases k - i,
            {
                out.push(read_u16_le(b, pos + 2 * i));
                i = i + 1;
            }
            assert(out@ =~= Seq::new(k as nat, |i: int| spec_u16_at(b@, pos + 2 * i)));
            Ok((2 * k, FieldValue::U16Array(out)))
        },
        PrimitiveDataType::U32 => {
            if k > rem / 4 {
                proof {
                    assert(4 * (k as int) > rem);
                }
                return Err(RosError::InvalidData);
            }
            assert(4 * k <= rem);
            let mut out: Vec<u32> = Vec::new();
            let mut i: usize = 0;
            while i < k
                invariant
                    0 <= i <= k,
                    pos + 4 * k <= n <= b@.len(),
                    n == b@.len(),
                    out@.len() == i,
                    forall|j: int| 0 <= j < i ==> out@[j] == spec_u32_at(b@, pos + 4 * j),
                decreases k - i,
            {
                out.push(read_u32_le(b, pos + 4 * i));
                i = i + 1;
            }
            assert(out@ =~= Seq::new(k as nat, |i: int| spec_u32_at(b@, pos + 4 * i)));
            Ok((4 * k, FieldValue::U32Array(out)))
        },
        PrimitiveDataType::U64 => {
            if k > rem / 8 {
                proof {
                    assert(8 * (k as int) > rem);
                }
                return Err(RosError::InvalidData);
            }
            assert(8 * k <= rem);
            let mut out: Vec<u64> = Vec::new();
            let mut i: usize = 0;
            while i < k
                invariant
                    0 <= i <= k,
                    pos + 8 * k <= n <= b@.len(),
                    n == b@.len(),
                    out@.len() == i,
                    forall|j: int| 0 <= j < i ==> out@[j] == spec_u64_at(b@, pos + 8 * j),
                decreases k - i,
            {
                out.push(read_u64_le(b, pos + 8 * i));
                i = i + 1;
            }
            assert(out@ =~= Seq::new(k as nat, |i: int| spec_u64_at(b@, pos + 8 * i)));
            Ok((8 * k, FieldValue::U64Array(out)))
        },
        PrimitiveDataType::F32 => {
            if k > rem / 4 {
                proof {
                    assert(4 * (k as int) > rem);
                }
                return Err(RosError::InvalidData);
            }
            assert(4 * k <= rem);
            let mut out: Vec<u32> = Vec::new();
            let mut i: usize = 0;
            while i < k
                invariant
                    0 <= i <= k,
                    pos + 4 * k <= n <= b@.len(),
                    n == b@.len(),
                    out@.len() == i,
                    forall|j: int| 0 <= j < i ==> out@[j] == spec_u32_at(b@, pos + 4 * j),
                decreases k - i,
            {
                out.push(read_u32_le(b, pos + 4 * i));
                i = i + 1;
            }
            assert(out@ =~= Seq::new(k as nat, |i: int| spec_u32_at(b@, pos + 4 * i)));
            Ok((4 * k, FieldValue::F32BitsArray(out)))
        },
        PrimitiveDataType::F64 => {
            if k > rem / 8 {
                proof {
                    assert(8 * (k as int) > rem);
                }
                return Err(RosError::InvalidData);
            }
            assert(8 * k <= rem);
            let mut out: Vec<u64> = Vec::new();
            let mut i: usize = 0;
            while i < k
                invariant
                    0 <= i <= k,
                    pos + 8 * k <= n <= b@.len(),
                    n == b@.len(),
                    out@.len() == i,
                    forall|j: int| 0 <= j < i ==> out@[j] == spec_u64_at(b@, pos + 8 * j),
                decreases k - i,
            {
                out.push(read_u64_le(b, pos + 8 * i));
                i = i + 1;
            }
            assert(out@ =~= Seq::new(k as nat, |i: int| spec_u64_at(b@, pos + 8 * i)));
            Ok((8 * k, FieldValue::F64BitsArray(out)))
        },
        PrimitiveDataType::Str => {
            let mut out: Vec<String> = Vec::new();
            let mut i: usize = 0;
            let mut cur: usize = pos;
            assert(out.deep_view() =~= Seq::<Seq<char>>::empty());
            while i < k
                invariant
                    0 <= i <= k,
                    pos <= cur <= n,
                    n == b@.len(),
                    p == PrimitiveDataType::Str,
                    spec_decode_str_seq(k as int, b@, pos as int) == (match spec_decode_str_seq(
                        k as int - i,
                        b@,
                        cur as int,
                    ) {
                        None => None::<(int, Seq<Seq<char>>)>,
                        Some((c, ss)) => Some(
                            ((cur - pos) + c, out.deep_view() + ss),
                        ),
                    }),
                decreases k - i,
            {
                match decode_str(b, cur) {
                    Err(e) => {
                        assert(spec_decode_str_seq(k as int - i, b@, cur as int) is None);
                        assert(spec_decode_str_seq(k as int, b@, pos as int) is None);
                        assert(spec_decode_prim_array(p, k as int, b@, pos as int) is None);
                        return Err(e);
                    },
                    Ok((c, s)) => {
                        let ghost sv = s@;
                        let ghost pre = out.deep_view();
                        out.push(s);
                        assert(out.deep_view() =~= pre.push(sv));
                        proof {
                            if spec_decode_str_seq(k as int - i - 1, b@, (cur + c) as int)
                                is Some {
                                let t = spec_decode_str_seq(
                                    k as int - i - 1,
                                    b@,
                                    (cur + c) as int,
                                )->Some_0;
                                assert(pre + (seq![sv] + t.1) =~= out.deep_view() + t.1);
                            }
                        }
                        cur = cur + c;
                        i = i + 1;
                    },
                }
            }
            assert(spec_decode_str_seq(k as int - i, b@, cur as int) == Some(
                (0int, Seq::<Seq<char>>::empty()),
            ));
            assert(out.deep_view() + Seq::<Seq<char>>::empty() =~= out.deep_view());
            Ok((cur - pos, FieldValue::StrArray(out)))
        },
        PrimitiveDataType::Time => {
            if k > rem / 8 {
                proof {
                    assert(8 * (k as int) > rem);
                }
                return Err(RosError::InvalidData);
            }
            assert(8 * k <= rem);
            let mut out: Vec<u64> = Vec::new();
            let mut i: usize = 0;
            while i < k
                invariant
                    0 <= i <= k,
                    pos + 8 * k <= n <= b@.len(),
                    n == b@.len(),
                    out@.len() == i,
                    forall|j: int| 0 <= j < i ==> out@[j] == spec_time_at(b@, pos + 8 * j),
                decreases k - i,
            {
                out.push(read_time_le(b, pos + 8 * i));
                i = i + 1;
            }
            assert(out@ =~= Seq::new(k as nat, |i: int| spec_time_at(b@, pos + 8 * i)));
            Ok((8 * k, FieldValue::TimeArray(out)))
        },
        PrimitiveDataType::Duration => {
            if k > rem / 8 {
                proof {
                    assert(8 * (k as int) > rem);
                }
                return Err(RosError::InvalidData);
            }
            assert(8 * k <= rem);
            let mut out: Vec<u64> = Vec::new();
            let mut i: usize = 0;
            while i < k
                invariant
                    0 <= i <= k,
                    pos + 8 * k <= n <= b@.len(),
                    n == b@.len(),
                    out@.len() == i,
                    forall|j: int| 0 <= j < i ==> out@[j] == spec_time_at(b@, pos + 8 * j),
                decreases k - i,
            {
                out.push(read_time_le(b, pos + 8 * i));
                i = i + 1;
            }
            assert(out@ =~= Seq::new(k as nat, |i: int| spec_time_at(b@, pos + 8 * i)));
            Ok((8 * k, FieldValue::DurationArray(out)))
        },
    }
}

/// Decodes one value of type `dt` at `pos`.
pub fn decode_dt(dt: &DataType, b: &[u8], pos: usize) -> (r: Result<(usize, FieldValue), RosError>)
    requires
        pos <= b@.len(),
    ensures
        match r {
            Ok((c, v)) => spec_decode_dt(dt@, b@, pos as int) == Some((c as int, v@)) && pos + c
                <= b@.len(),
            Err(e) => spec_decode_dt(dt@, b@, pos as int) is None && e == RosError::InvalidData,
        },
    decreases dt@, 1int, 0int,
{
    let n = b.len();
    match dt {
        DataType::Primitive(p) => decode_prim(*p, b, pos),
        DataType::PrimitiveArray(k, p) => decode_prim_array(*p, *k, b, pos),
        DataType::PrimitiveVector(p) => {
            if n - pos < 4 {
                return Err(RosError::InvalidData);
            }
            let k = read_u32_le(b, pos) as usize;
            match decode_prim_array(*p, k, b, pos + 4) {
                Ok((c, v)) => Ok((4 + c, v)),
                Err(e) => Err(e),
            }
        },
        DataType::Complex(m) => {
            match decode_msg(m, b, pos) {
                Ok((c, mv)) => Ok((c, FieldValue::Msg(mv))),
                Err(e) => Err(e),
            }
        },
        DataType::ComplexArray(k, m) => {
            match decode_msg_seq(m, *k, b, pos) {
                Ok((c, vs)) => Ok((c, FieldValue::MsgArray(vs))),
                Err(e) => Err(e),
            }
        },
        DataType::ComplexVector(m) => {
            if n - pos < 4 {
                return Err(RosError::InvalidData);
            }
            let k = read_u32_le(b, pos) as usize;
            match decode_msg_seq(m, k, b, pos + 4) {
                Ok((c, vs)) => Ok((4 + c, FieldValue::MsgArray(vs))),
                Err(e) => Err(e),
            }
        },
    }
}

/// Decodes one message at `pos`: its fields in definition order.
pub fn decode_msg(m: &MsgType, b: &[u8], pos: usize) -> (r: Result<(usize, MsgValue), RosError>)
    requires
        pos <= b@.len(),
    ensures
        match r {
            Ok((c, mv)) => spec_decode_msg(m@, b@, pos as int) == Some((c as int, mv@)) && pos + c
                <= b@.len(),
            Err(e) => spec_decode_msg(m@, b@, pos as int) is None && e == RosError::InvalidData,
        },
    decreases m@, 0int, 0int,
{
    let n = b.len();
    let nf = m.fields.len();
    let mut out: Vec<(String, FieldValue)> = Vec::new();
    let mut cur: usize = pos;
    let mut i: usize = 0;
    proof {
        crate::data_type::lemma_fields_view_len(m.fields@);
        assert(m@.fields.skip(0) =~= m@.fields);
        assert(crate::msg_value::named_values_view(out@) =~= Seq::<
            (Seq<char>, FieldValueV),
        >::empty());
    }
    while i < nf
        invariant
            0 <= i <= nf,
            pos <= cur <= n,
            n == b@.len(),
            nf == m.fields@.len(),
            nf == m@.fields.len(),
            spec_decode_fields(m@.fields, b@, pos as int) == (match spec_decode_fields(
                m@.fields.skip(i as int),
                b@,
                cur as int,
            ) {
                None => None::<(int, Seq<(Seq<char>, FieldValueV)>)>,
                Some((c, named)) => Some(
                    ((cur - pos) + c, crate::msg_value::named_values_view(out@) + named),
                ),
            }),
        decreases nf - i,
    {
        proof {
            crate::data_type::lemma_fields_view_index(m.fields@, i as int);
            assert(m@.fields.skip(i as int)[0] == m@.fields[i as int]);
            assert(m@.fields.skip(i as int).drop_first() =~= m@.fields.skip(i as int + 1));
            assert(m@.fields[i as int].field_type == m.fields@[i as int].field_type@);
        }
        match decode_dt(&m.fields[i].field_type, b, cur) {
            Err(e) => {
                return Err(e);
            },
            Ok((c, v)) => {
                let ghost nv = (m.fields@[i as int].field_name@, v@);
                let pair = (m.fields[i].field_name.clone(), v);
                let ghost pre = out@;
                assert((pair.0@, field_value_view(pair.1)) == nv);
                out.push(pair);
                proof {
                    crate::msg_value::lemma_named_values_view_len(pre);
                    crate::msg_value::lemma_named_values_view_len(out@);
                    assert forall|j: int|
                        0 <= j < out@.len() implies crate::msg_value::named_values_view(out@)[j]
                        == crate::msg_value::named_values_view(pre).push(nv)[j] by {
                        crate::msg_value::lemma_named_values_view_index(out@, j);
                        if j < pre.len() {
                            crate::msg_value::lemma_named_values_view_index(pre, j);
                        }
                    }
                    assert(crate::msg_value::named_values_view(out@)
                        =~= crate::msg_value::named_values_view(pre).push(nv));
                    if spec_decode_fields(m@.fields.skip(i as int + 1), b@, (cur + c) as int)
                        is Some {
                        let t = spec_decode_fields(
                            m@.fields.skip(i as int + 1),
                            b@,
                            (cur + c) as int,
                        )->Some_0;
                        assert(crate::msg_value::named_values_view(pre) + (seq![nv] + t.1)
                            =~= crate::msg_value::named_values_view(out@) + t.1);
                    }
                }
                cur = cur + c;
                i = i + 1;
            },
        }
    }
    proof {
        assert(m@.fields.skip(nf as int) =~= Seq::<FieldV>::empty());
        assert(spec_decode_fields(m@.fields.skip(nf as int), b@, cur as int) == Some(
            (0int, Seq::<(Seq<char>, FieldValueV)>::empty()),
        ));
        assert(crate::msg_value::named_values_view(out@) + Seq::<
            (Seq<char>, FieldValueV),
        >::empty() =~= crate::msg_value::named_values_view(out@));
    }
    Ok((cur - pos, MsgValue { fields: out }))
}

/// Decodes `k` consecutive messages of one type.
pub fn decode_msg_seq(m: &MsgType, k: usize, b: &[u8], pos: usize) -> (r: Result<
    (usize, Vec<MsgValue>),
    RosError,
>)
    requires
        pos <= b@.len(),
    ensures
        match r {
            Ok((c, vs)) => spec_decode_msg_seq(m@, k as int, b@, pos as int) == Some(
                (c as int, crate::msg_value::msg_values_view(vs@)),
            ) && pos + c <= b@.len(),
            Err(e) => spec_decode_msg_seq(m@, k as int, b@, pos as int) is None && e
                == RosError::InvalidData,
        },
    decreases m@, 1int, k as int,
{
    let n = b.len();
    let mut out: Vec<MsgValue> = Vec::new();
    let mut cur: usize = pos;
    let mut i: usize = 0;
    assert(crate::msg_value::msg_values_view(out@) =~= Seq::<MsgValueV>::empty());
    while i < k
        invariant
            0 <= i <= k,
            pos <= cur <= n,
            n == b@.len(),
            spec_decode_msg_seq(m@, k as int, b@, pos as int) == (match spec_decode_msg_seq(
                m@,
                k as int - i,
                b@,
                cur as int,
            ) {
                None => None::<(int, Seq<MsgValueV>)>,
                Some((c, vs)) => Some(
                    ((cur - pos) + c, crate::msg_value::msg_values_view(out@) + vs),
                ),
            }),
        decreases k - i,
    {
        match decode_msg(m, b, cur) {
            Err(e) => {
                assert(spec_decode_msg_seq(m@, k as int - i, b@, cur as int) is None);
                return Err(e);
            },
            Ok((c, mv)) => {
                let ghost nv = mv@;
                let ghost pre = out@;
                out.push(mv);
                proof {
                    crate::msg_value::lemma_msg_values_view_len(pre);
                    crate::msg_value::lemma_msg_values_view_len(out@);
                    assert forall|j: int|
                        0 <= j < out@.len() implies crate::msg_value::msg_values_view(out@)[j]
                        == crate::msg_value::msg_values_view(pre).push(nv)[j] by {
                        crate::msg_value::lemma_msg_values_view_index(out@, j);
                        if j < pre.len() {
                            crate::msg_value::lemma_msg_values_view_index(pre, j);
                        }
                    }
                    assert(crate::msg_value::msg_values_view(out@)
                        =~= crate::msg_value::msg_values_view(pre).push(nv));
                    if spec_decode_msg_seq(m@, k as int - i - 1, b@, (cur + c) as int) is Some {
                        let t = spec_decode_msg_seq(
                            m@,
                            k as int - i - 1,
                            b@,
                            (cur + c) as int,
                        )->Some_0;
                        assert(crate::msg_value::msg_values_view(pre) + (seq![nv] + t.1)
                            =~= crate::msg_value::msg_values_view(out@) + t.1);
                    }
                }
                cur = cur + c;
                i = i + 1;
            },
        }
    }
    assert(spec_decode_msg_seq(m@, k as int - i, b@, cur as int) == Some(
        (0int, Seq::<MsgValueV>::empty()),
    ));
    assert(crate::msg_value::msg_values_view(out@) + Seq::<MsgValueV>::empty()
        =~= crate::msg_value::msg_values_view(out@));
    Ok((cur - pos, out))
}

impl MsgType {
    /// Deserialises a payload against this schema: the result is the
    /// consumed byte count and the decoded message value. Trailing
    /// bytes are ignored.
    pub fn try_parse(&self, bytes: &[u8]) -> (r: Result<(usize, FieldValue), RosError>)
        ensures
            match r {
                Ok((c, v)) => spec_try_parse(self@, bytes@) == Ok::<(int, FieldValueV), RosError>(
                    (c as int, v@),
                ) && c <= bytes@.len(),
                Err(e) => spec_try_parse(self@, bytes@) == Err::<(int, FieldValueV), RosError>(e),
            },
    {
        match decode_msg(self, bytes, 0) {
            Ok((c, mv)) => Ok((c, FieldValue::Msg(mv))),
            Err(e) => Err(e),
        }
    }
}

} // verus!
