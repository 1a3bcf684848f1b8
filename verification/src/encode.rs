//! The bag encoding of typed values, and the proof that decoding a
//! re-emitted payload returns the original value.
//!
//! Nothing here runs: the encoding is a specification, and the lemmas
//! state the round-trip law for [`crate::decode`].
use vstd::prelude::*;

use vstd::utf8::{encode_utf8, valid_utf8};

use crate::data_type::{DataTypeV, FieldV, MsgTypeV, PrimitiveDataType};
use crate::decode::{
    spec_decode_dt, spec_decode_fields, spec_decode_msg, spec_decode_msg_seq,
    spec_decode_prim, spec_decode_prim_array, spec_decode_str, spec_decode_str_seq,
    spec_try_parse,
};
use crate::error::RosError;
use crate::msg_value::{FieldValueV, MsgValueV};
use crate::wire::{
    spec_time_bytes, spec_u16_bytes, spec_u32_bytes, spec_u64_bytes, NS_PER_SEC,
};

verus! {

// ---------------------------------------------------------------------------
// Element encoders
// ---------------------------------------------------------------------------

pub open spec fn spec_encode_bools(xs: Seq<bool>) -> Seq<u8>
    decreases xs.len(),
{
    if xs.len() == 0 {
        Seq::empty()
    } else {
        seq![if xs[0] {
            1u8
        } else {
            0u8
        }] + spec_encode_bools(xs.drop_first())
    }
}

pub open spec fn spec_encode_u8s(xs: Seq<u8>) -> Seq<u8> {
    xs
}

pub open spec fn spec_encode_u16s(xs: Seq<u16>) -> Seq<u8>
    decreases xs.len(),
{
    if xs.len() == 0 {
        Seq::empty()
    } else {
        spec_u16_bytes(xs[0]) + spec_encode_u16s(xs.drop_first())
    }
}

pub open spec fn spec_encode_u32s(xs: Seq<u32>) -> Seq<u8>
    decreases xs.len(),
{
    if xs.len() == 0 {
        Seq::empty()
    } else {
        spec_u32_bytes(xs[0]) + spec_encode_u32s(xs.drop_first())
    }
}

pub open spec fn spec_encode_u64s(xs: Seq<u64>) -> Seq<u8>
    decreases xs.len(),
{
    if xs.len() == 0 {
        Seq::empty()
    } else {
        spec_u64_bytes(xs[0]) + spec_encode_u64s(xs.drop_first())
    }
}

pub open spec fn spec_encode_times(xs: Seq<u64>) -> Seq<u8>
    decreases xs.len(),
{
    if xs.len() == 0 {
        Seq::empty()
    } else {
        spec_time_bytes(xs[0]) + spec_encode_times(xs.drop_first())
    }
}

/// One string: `u32` byte length, then the UTF-8 bytes.
pub open spec fn spec_encode_string(s: Seq<char>) -> Seq<u8> {
    spec_u32_bytes(encode_utf8(s).len() as u32) + encode_utf8(s)
}

pub open spec fn spec_encode_strs(ss: Seq<Seq<char>>) -> Seq<u8>
    decreases ss.len(),
{
    if ss.len() == 0 {
        Seq::empty()
    } else {
        spec_encode_string(ss[0]) + spec_encode_strs(ss.drop_first())
    }
}

// ---------------------------------------------------------------------------
// Value encoders
// ---------------------------------------------------------------------------

/// One primitive value. Meaningful only where the value conforms to
/// the primitive kind.
pub open spec fn spec_encode_prim(p: PrimitiveDataType, v: FieldValueV) -> Seq<u8> {
    match v {
        FieldValueV::Bool(x) => seq![
            if x {
                1u8
            } else {
                0u8
            },
        ],
        FieldValueV::I8(x) => seq![x as u8],
        FieldValueV::I16(x) => spec_u16_bytes(x as u16),
        FieldValueV::I32(x) => spec_u32_bytes(x as u32),
        FieldValueV::I64(x) => spec_u64_bytes(x as u64),
        FieldValueV::U8(x) => seq![x],
        FieldValueV::U16(x) => spec_u16_bytes(x),
        FieldValueV::U32(x) => spec_u32_bytes(x),
        FieldValueV::U64(x) => spec_u64_bytes(x),
        FieldValueV::F32Bits(x) => spec_u32_bytes(x),
        FieldValueV::F64Bits(x) => spec_u64_bytes(x),
        FieldValueV::Str(s) => spec_encode_string(s),
        FieldValueV::Time(t) => spec_time_bytes(t),
        FieldValueV::Duration(t) => spec_time_bytes(t),
        _ => Seq::empty(),
    }
}

/// The bare elements of a primitive array value (no count prefix).
pub open spec fn spec_encode_prim_elems(v: FieldValueV) -> Seq<u8> {
    match v {
        FieldValueV::BoolArray(xs) => spec_encode_bools(xs),
        FieldValueV::I8Array(xs) => spec_encode_u8s(xs.map_values(|x: i8| x as u8)),
        FieldValueV::I16Array(xs) => spec_encode_u16s(xs.map_values(|x: i16| x as u16)),
        FieldValueV::I32Array(xs) => spec_encode_u32s(xs.map_values(|x: i32| x as u32)),
        FieldValueV::I64Array(xs) => spec_encode_u64s(xs.map_values(|x: i64| x as u64)),
        FieldValueV::U8Array(xs) => spec_encode_u8s(xs),
        FieldValueV::U16Array(xs) => spec_encode_u16s(xs),
        FieldValueV::U32Array(xs) => spec_encode_u32s(xs),
        FieldValueV::U64Array(xs) => spec_encode_u64s(xs),
        FieldValueV::F32BitsArray(xs) => spec_encode_u32s(xs),
        FieldValueV::F64BitsArray(xs) => spec_encode_u64s(xs),
        FieldValueV::StrArray(ss) => spec_encode_strs(ss),
        FieldValueV::TimeArray(xs) => spec_encode_times(xs),
        FieldValueV::DurationArray(xs) => spec_encode_times(xs),
        _ => Seq::empty(),
    }
}

/// The element count of an array value; meaningful for array variants.
pub open spec fn spec_elem_count(v: FieldValueV) -> int {
    match v {
        FieldValueV::BoolArray(xs) => xs.len() as int,
        FieldValueV::I8Array(xs) => xs.len() as int,
        FieldValueV::I16Array(xs) => xs.len() as int,
        FieldValueV::I32Array(xs) => xs.len() as int,
        FieldValueV::I64Array(xs) => xs.len() as int,
        FieldValueV::U8Array(xs) => xs.len() as int,
        FieldValueV::U16Array(xs) => xs.len() as int,
        FieldValueV::U32Array(xs) => xs.len() as int,
        FieldValueV::U64Array(xs) => xs.len() as int,
        FieldValueV::F32BitsArray(xs) => xs.len() as int,
        FieldValueV::F64BitsArray(xs) => xs.len() as int,
        FieldValueV::StrArray(ss) => ss.len() as int,
        FieldValueV::TimeArray(xs) => xs.len() as int,
        FieldValueV::DurationArray(xs) => xs.len() as int,
        FieldValueV::MsgArray(vs) => vs.len() as int,
        _ => -1,
    }
}

/// One value against its schema type: arrays emit bare elements,
/// vectors a `u32` count first, messages their fields in order.
pub open spec fn spec_encode_dt(dt: DataTypeV, v: FieldValueV) -> Seq<u8>
    decreases dt, 1int, 0int,
{
    match dt {
        DataTypeV::Primitive(p) => spec_encode_prim(p, v),
        DataTypeV::PrimitiveArray(_, _) => spec_encode_prim_elems(v),
        DataTypeV::PrimitiveVector(_) => spec_u32_bytes(spec_elem_count(v) as u32)
            + spec_encode_prim_elems(v),
        DataTypeV::Complex(m) => match v {
            FieldValueV::Msg(mv) => spec_encode_msg(m, mv),
            _ => Seq::empty(),
        },
        DataTypeV::ComplexArray(_, m) => match v {
            FieldValueV::MsgArray(vs) => spec_encode_msgs(m, vs),
            _ => Seq::empty(),
        },
        DataTypeV::ComplexVector(m) => match v {
            FieldValueV::MsgArray(vs) => spec_u32_bytes(vs.len() as u32) + spec_encode_msgs(
                m,
                vs,
            ),
            _ => Seq::empty(),
        },
    }
}

pub open spec fn spec_encode_msg(m: MsgTypeV, mv: MsgValueV) -> Seq<u8>
    decreases m, 0int, 0int,
{
    spec_encode_fields(m.fields, mv.fields)
}

pub open spec fn spec_encode_fields(
    fs: Seq<FieldV>,
    nvs: Seq<(Seq<char>, FieldValueV)>,
) -> Seq<u8>
    decreases fs, 1int, 0int,
{
    if fs.len() == 0 || nvs.len() == 0 {
        Seq::empty()
    } else {
        spec_encode_dt(fs[0].field_type, nvs[0].1) + spec_encode_fields(
            fs.drop_first(),
            nvs.drop_first(),
        )
    }
}

pub open spec fn spec_encode_msgs(m: MsgTypeV, vs: Seq<MsgValueV>) -> Seq<u8>
    decreases m, 1int, vs.len(),
{
    if vs.len() == 0 {
        Seq::empty()
    } else {
        spec_encode_msg(m, vs[0]) + spec_encode_msgs(m, vs.drop_first())
    }
}

// ---------------------------------------------------------------------------
// Conformance
// ---------------------------------------------------------------------------

/// A scalar value matches a primitive kind, and is encodable: string
/// lengths fit a `u32` prefix, and timestamps have a seconds part that
/// fits a `u32` word.
pub open spec fn spec_conforms_prim(p: PrimitiveDataType, v: FieldValueV) -> bool {
    match (p, v) {
        (PrimitiveDataType::Bool, FieldValueV::Bool(_)) => true,
        (PrimitiveDataType::I8, FieldValueV::I8(_)) => true,
        (PrimitiveDataType::I16, FieldValueV::I16(_)) => true,
        (PrimitiveDataType::I32, FieldValueV::I32(_)) => true,
        (PrimitiveDataType::I64, FieldValueV::I64(_)) => true,
        (PrimitiveDataType::U8, FieldValueV::U8(_)) => true,
        (PrimitiveDataType::U16, FieldValueV::U16(_)) => true,
        (PrimitiveDataType::U32, FieldValueV::U32(_)) => true,
        (PrimitiveDataType::U64, FieldValueV::U64(_)) => true,
        (PrimitiveDataType::F32, FieldValueV::F32Bits(_)) => true,
        (PrimitiveDataType::F64, FieldValueV::F64Bits(_)) => true,
        (PrimitiveDataType::Str, FieldValueV::Str(s)) => encode_utf8(s).len() <= u32::MAX,
        (PrimitiveDataType::Time, FieldValueV::Time(t)) => t / (NS_PER_SEC as u64) <= u32::MAX,
        (PrimitiveDataType::Duration, FieldValueV::Duration(t)) => t / (NS_PER_SEC as u64)
            <= u32::MAX,
        _ => false,
    }
}

/// An array value matches a primitive element kind, and its elements
/// are encodable.
pub open spec fn spec_conforms_prim_elems(p: PrimitiveDataType, v: FieldValueV) -> bool {
    match (p, v) {
        (PrimitiveDataType::Bool, FieldValueV::BoolArray(_)) => true,
        (PrimitiveDataType::I8, FieldValueV::I8Array(_)) => true,
        (PrimitiveDataType::I16, FieldValueV::I16Array(_)) => true,
        (PrimitiveDataType::I32, FieldValueV::I32Array(_)) => true,
        (PrimitiveDataType::I64, FieldValueV::I64Array(_)) => true,
        (PrimitiveDataType::U8, FieldValueV::U8Array(_)) => true,
        (PrimitiveDataType::U16, FieldValueV::U16Array(_)) => true,
        (PrimitiveDataType::U32, FieldValueV::U32Array(_)) => true,
        (PrimitiveDataType::U64, FieldValueV::U64Array(_)) => true,
        (PrimitiveDataType::F32, FieldValueV::F32BitsArray(_)) => true,
        (PrimitiveDataType::F64, FieldValueV::F64BitsArray(_)) => true,
        (PrimitiveDataType::Str, FieldValueV::StrArray(ss)) => forall|i: int|
            0 <= i < ss.len() ==> encode_utf8(#[trigger] ss[i]).len() <= u32::MAX,
        (PrimitiveDataType::Time, FieldValueV::TimeArray(xs)) => forall|i: int|
            0 <= i < xs.len() ==> #[trigger] xs[i] / (NS_PER_SEC as u64) <= u32::MAX,
        (PrimitiveDataType::Duration, FieldValueV::DurationArray(xs)) => forall|i: int|
            0 <= i < xs.len() ==> #[trigger] xs[i] / (NS_PER_SEC as u64) <= u32::MAX,
        _ => false,
    }
}

/// A value conforms to a schema type: matching shape, matching fixed
/// array lengths, vector counts that fit a `u32`, and matching nested
/// fields in definition order.
pub open spec fn spec_conforms_dt(dt: DataTypeV, v: FieldValueV) -> bool
    decreases dt, 1int, 0int,
{
    match dt {
        DataTypeV::Primitive(p) => spec_conforms_prim(p, v),
        DataTypeV::PrimitiveArray(k, p) => spec_conforms_prim_elems(p, v) && spec_elem_count(v)
            == k as int,
        DataTypeV::PrimitiveVector(p) => spec_conforms_prim_elems(p, v) && spec_elem_count(v)
            <= u32::MAX,
        DataTypeV::Complex(m) => match v {
            FieldValueV::Msg(mv) => spec_conforms_msg(m, mv),
            _ => false,
        },
        DataTypeV::ComplexArray(k, m) => match v {
            FieldValueV::MsgArray(vs) => vs.len() == k as int && spec_conforms_msgs(m, vs),
            _ => false,
        },
        DataTypeV::ComplexVector(m) => match v {
            FieldValueV::MsgArray(vs) => vs.len() <= u32::MAX && spec_conforms_msgs(m, vs),
            _ => false,
        },
    }
}

pub open spec fn spec_conforms_msg(m: MsgTypeV, mv: MsgValueV) -> bool
    decreases m, 0int, 0int,
{
    spec_conforms_fields(m.fields, mv.fields)
}

pub open spec fn spec_conforms_fields(
    fs: Seq<FieldV>,
    nvs: Seq<(Seq<char>, FieldValueV)>,
) -> bool
    decreases fs, 1int, 0int,
{
    fs.len() == nvs.len() && (fs.len() == 0 || (nvs[0].0 == fs[0].field_name
        && spec_conforms_dt(fs[0].field_type, nvs[0].1) && spec_conforms_fields(
        fs.drop_first(),
        nvs.drop_first(),
    )))
}

pub open spec fn spec_conforms_msgs(m: MsgTypeV, vs: Seq<MsgValueV>) -> bool
    decreases m, 1int, vs.len(),
{
    vs.len() == 0 || (spec_conforms_msg(m, vs[0]) && spec_conforms_msgs(m, vs.drop_first()))
}

// ---------------------------------------------------------------------------
// Round-trip lemmas
// ---------------------------------------------------------------------------

proof fn lemma_i8_cast(x: i8)
    ensures
        (x as u8) as i8 == x,
{
    assert((x as u8) as i8 == x) by (bit_vector);
}

proof fn lemma_i16_cast(x: i16)
    ensures
        (x as u16) as i16 == x,
{
    assert((x as u16) as i16 == x) by (bit_vector);
}

proof fn lemma_i32_cast(x: i32)
    ensures
        (x as u32) as i32 == x,
{
    assert((x as u32) as i32 == x) by (bit_vector);
}

proof fn lemma_i64_cast(x: i64)
    ensures
        (x as u64) as i64 == x,
{
    assert((x as u64) as i64 == x) by (bit_vector);
}

/// A concatenation laid down at `pos` splits into its two parts.
proof fn lemma_subrange_split(b: Seq<u8>, pos: int, e1: Seq<u8>, e2: Seq<u8>)
    requires
        0 <= pos,
        pos + e1.len() + e2.len() <= b.len(),
        b.subrange(pos, pos + e1.len() + e2.len()) == e1 + e2,
    ensures
        b.subrange(pos, pos + e1.len() as int) == e1,
        b.subrange(pos + e1.len() as int, pos + e1.len() + e2.len()) == e2,
{
    let whole = b.subrange(pos, pos + e1.len() + e2.len());
    assert forall|j: int| 0 <= j < e1.len() implies b[pos + j] == e1[j] by {
        assert(whole[j] == b[pos + j]);
        assert((e1 + e2)[j] == e1[j]);
    }
    assert(b.subrange(pos, pos + e1.len() as int) =~= e1);
    assert forall|j: int| 0 <= j < e2.len() implies b[pos + e1.len() + j] == e2[j] by {
        assert(whole[e1.len() + j] == b[pos + e1.len() + j]);
        assert((e1 + e2)[e1.len() + j] == e2[j]);
    }
    assert(b.subrange(pos + e1.len() as int, pos + e1.len() + e2.len()) =~= e2);
}

proof fn lemma_encode_bools_len(xs: Seq<bool>)
    ensures
        spec_encode_bools(xs).len() == xs.len(),
    decreases xs.len(),
{
    if xs.len() > 0 {
        lemma_encode_bools_len(xs.drop_first());
    }
}

proof fn lemma_encode_u16s_len(xs: Seq<u16>)
    ensures
        spec_encode_u16s(xs).len() == 2 * xs.len(),
    decreases xs.len(),
{
    if xs.len() > 0 {
        lemma_encode_u16s_len(xs.drop_first());
    }
}

proof fn lemma_encode_u32s_len(xs: Seq<u32>)
    ensures
        spec_encode_u32s(xs).len() == 4 * xs.len(),
    decreases xs.len(),
{
    if xs.len() > 0 {
        lemma_encode_u32s_len(xs.drop_first());
    }
}

proof fn lemma_encode_u64s_len(xs: Seq<u64>)
    ensures
        spec_encode_u64s(xs).len() == 8 * xs.len(),
    decreases xs.len(),
{
    if xs.len() > 0 {
        lemma_encode_u64s_len(xs.drop_first());
    }
}

proof fn lemma_encode_times_len(xs: Seq<u64>)
    ensures
        spec_encode_times(xs).len() == 8 * xs.len(),
    decreases xs.len(),
{
    if xs.len() > 0 {
        lemma_encode_times_len(xs.drop_first());
    }
}

proof fn lemma_encode_u64s_single(x: u64)
    ensures
        spec_encode_u64s(seq![x]) == spec_u64_bytes(x),
{
    assert(seq![x].drop_first() =~= Seq::<u64>::empty());
    assert(spec_encode_u64s(Seq::<u64>::empty()) == Seq::<u8>::empty());
    assert(spec_encode_u64s(seq![x]) =~= spec_u64_bytes(x));
}

proof fn lemma_encode_times_single(x: u64)
    ensures
        spec_encode_times(seq![x]) == spec_time_bytes(x),
{
    assert(seq![x].drop_first() =~= Seq::<u64>::empty());
    assert(spec_encode_times(Seq::<u64>::empty()) == Seq::<u8>::empty());
    assert(spec_encode_times(seq![x]) =~= spec_time_bytes(x));
}

proof fn lemma_bools_embed(xs: Seq<bool>, b: Seq<u8>, pos: int)
    requires
        0 <= pos,
        pos + xs.len() <= b.len(),
        b.subrange(pos, pos + xs.len() as int) == spec_encode_bools(xs),
    ensures
        forall|i: int|
            0 <= i < xs.len() ==> ((b[pos + i] == 1) <==> xs[i]),
    decreases xs.len(),
{
    lemma_encode_bools_len(xs);
    if xs.len() > 0 {
        let head = seq![
            if xs[0] {
                1u8
            } else {
                0u8
            },
        ];
        let rest = spec_encode_bools(xs.drop_first());
        lemma_encode_bools_len(xs.drop_first());
        assert(spec_encode_bools(xs) == head + rest);
        lemma_subrange_split(b, pos, head, rest);
        assert(b.subrange(pos, pos + 1)[0] == b[pos]);
        assert(b[pos] == head[0]);
        lemma_bools_embed(xs.drop_first(), b, pos + 1);
        assert forall|i: int| 0 <= i < xs.len() implies ((b[pos + i] == 1) <==> xs[i]) by {
            if i > 0 {
                assert(xs.drop_first()[i - 1] == xs[i]);
            }
        }
    }
}

proof fn lemma_u16s_embed(xs: Seq<u16>, b: Seq<u8>, pos: int)
    requires
        0 <= pos,
        pos + 2 * xs.len() <= b.len(),
        b.subrange(pos, pos + 2 * xs.len()) == spec_encode_u16s(xs),
    ensures
        forall|i: int|
            0 <= i < xs.len() ==> crate::wire::spec_u16_at(b, pos + 2 * i) == xs[i],
    decreases xs.len(),
{
    lemma_encode_u16s_len(xs);
    if xs.len() > 0 {
        let head = spec_u16_bytes(xs[0]);
        let rest = spec_encode_u16s(xs.drop_first());
        lemma_encode_u16s_len(xs.drop_first());
        assert(spec_encode_u16s(xs) == head + rest);
        lemma_subrange_split(b, pos, head, rest);
        assert forall|j: int| 0 <= j < 2 implies b[pos + j] == head[j] by {
            assert(b.subrange(pos, pos + 2)[j] == b[pos + j]);
        }
        crate::wire::lemma_u16_roundtrip(xs[0]);
        lemma_u16s_embed(xs.drop_first(), b, pos + 2);
        assert forall|i: int|
            0 <= i < xs.len() implies crate::wire::spec_u16_at(b, pos + 2 * i) == xs[i] by {
            if i > 0 {
                assert(xs.drop_first()[i - 1] == xs[i]);
                assert(crate::wire::spec_u16_at(b, pos + 2 + 2 * (i - 1)) == xs[i]);
                assert(pos + 2 + 2 * (i - 1) == pos + 2 * i);
            }
        }
    }
}

proof fn lemma_u32s_embed(xs: Seq<u32>, b: Seq<u8>, pos: int)
    requires
        0 <= pos,
        pos + 4 * xs.len() <= b.len(),
        b.subrange(pos, pos + 4 * xs.len()) == spec_encode_u32s(xs),
    ensures
        forall|i: int|
            0 <= i < xs.len() ==> crate::wire::spec_u32_at(b, pos + 4 * i) == xs[i],
    decreases xs.len(),
{
    lemma_encode_u32s_len(xs);
    if xs.len() > 0 {
        let head = spec_u32_bytes(xs[0]);
        let rest = spec_encode_u32s(xs.drop_first());
        lemma_encode_u32s_len(xs.drop_first());
        assert(spec_encode_u32s(xs) == head + rest);
        lemma_subrange_split(b, pos, head, rest);
        assert forall|j: int| 0 <= j < 4 implies b[pos + j] == head[j] by {
            assert(b.subrange(pos, pos + 4)[j] == b[pos + j]);
        }
        crate::wire::lemma_u32_roundtrip(xs[0]);
        lemma_u32s_embed(xs.drop_first(), b, pos + 4);
        assert forall|i: int|
            0 <= i < xs.len() implies crate::wire::spec_u32_at(b, pos + 4 * i) == xs[i] by {
            if i > 0 {
                assert(xs.drop_first()[i - 1] == xs[i]);
                assert(crate::wire::spec_u32_at(b, pos + 4 + 4 * (i - 1)) == xs[i]);
                assert(pos + 4 + 4 * (i - 1) == pos + 4 * i);
            }
        }
    }
}

proof fn lemma_u64s_embed(xs: Seq<u64>, b: Seq<u8>, pos: int)
    requires
        0 <= pos,
        pos + 8 * xs.len() <= b.len(),
        b.subrange(pos, pos + 8 * xs.len()) == spec_encode_u64s(xs),
    ensures
        forall|i: int|
            0 <= i < xs.len() ==> crate::wire::spec_u64_at(b, pos + 8 * i) == xs[i],
    decreases xs.len(),
{
    lemma_encode_u64s_len(xs);
    if xs.len() > 0 {
        let head = spec_u64_bytes(xs[0]);
        let rest = spec_encode_u64s(xs.drop_first());
        let lo = spec_u32_bytes(xs[0] as u32);
        let hi = spec_u32_bytes((xs[0] >> 32u64) as u32);
        lemma_encode_u64s_len(xs.drop_first());
        assert(spec_encode_u64s(xs) == head + rest);
        lemma_subrange_split(b, pos, head, rest);
        assert forall|j: int| 0 <= j < 8 implies b[pos + j] == head[j] by {
            assert(b.subrange(pos, pos + 8)[j] == b[pos + j]);
        }
        assert(head == lo + hi);
        assert(head[0] == lo[0] && head[1] == lo[1] && head[2] == lo[2] && head[3] == lo[3]);
        assert(head[4] == hi[0] && head[5] == hi[1] && head[6] == hi[2] && head[7] == hi[3]);
        crate::wire::lemma_u32_roundtrip(xs[0] as u32);
        crate::wire::lemma_u32_roundtrip((xs[0] >> 32u64) as u32);
        assert(crate::wire::spec_u32_at(b, pos) == xs[0] as u32);
        assert(crate::wire::spec_u32_at(b, pos + 4) == (xs[0] >> 32u64) as u32);
        crate::wire::lemma_u64_roundtrip(xs[0]);
        lemma_u64s_embed(xs.drop_first(), b, pos + 8);
        assert forall|i: int|
            0 <= i < xs.len() implies crate::wire::spec_u64_at(b, pos + 8 * i) == xs[i] by {
            if i > 0 {
                assert(xs.drop_first()[i - 1] == xs[i]);
                assert(crate::wire::spec_u64_at(b, pos + 8 + 8 * (i - 1)) == xs[i]);
                assert(pos + 8 + 8 * (i - 1) == pos + 8 * i);
            }
        }
    }
}

proof fn lemma_times_embed(xs: Seq<u64>, b: Seq<u8>, pos: int)
    requires
        0 <= pos,
        pos + 8 * xs.len() <= b.len(),
        b.subrange(pos, pos + 8 * xs.len()) == spec_encode_times(xs),
        forall|i: int| 0 <= i < xs.len() ==> #[trigger] xs[i] / (NS_PER_SEC as u64) <= u32::MAX,
    ensures
        forall|i: int|
            0 <= i < xs.len() ==> crate::wire::spec_time_at(b, pos + 8 * i) == xs[i],
    decreases xs.len(),
{
    lemma_encode_times_len(xs);
    if xs.len() > 0 {
        let t = xs[0];
        let sec = (t / (NS_PER_SEC as u64)) as u32;
        let ns = (t % (NS_PER_SEC as u64)) as u32;
        let head = spec_time_bytes(t);
        let rest = spec_encode_times(xs.drop_first());
        let lo = spec_u32_bytes(sec);
        let hi = spec_u32_bytes(ns);
        lemma_encode_times_len(xs.drop_first());
        assert(spec_encode_times(xs) == head + rest);
        lemma_subrange_split(b, pos, head, rest);
        assert forall|j: int| 0 <= j < 8 implies b[pos + j] == head[j] by {
            assert(b.subrange(pos, pos + 8)[j] == b[pos + j]);
        }
        assert(head == lo + hi);
        assert(head[0] == lo[0] && head[1] == lo[1] && head[2] == lo[2] && head[3] == lo[3]);
        assert(head[4] == hi[0] && head[5] == hi[1] && head[6] == hi[2] && head[7] == hi[3]);
        crate::wire::lemma_u32_roundtrip(sec);
        crate::wire::lemma_u32_roundtrip(ns);
        assert(crate::wire::spec_u32_at(b, pos) == sec);
        assert(crate::wire::spec_u32_at(b, pos + 4) == ns);
        crate::wire::lemma_time_roundtrip(t);
        lemma_times_embed(xs.drop_first(), b, pos + 8);
        assert forall|i: int|
            0 <= i < xs.len() implies crate::wire::spec_time_at(b, pos + 8 * i) == xs[i] by {
            if i > 0 {
                assert(xs.drop_first()[i - 1] == xs[i]);
                assert(crate::wire::spec_time_at(b, pos + 8 + 8 * (i - 1)) == xs[i]);
                assert(pos + 8 + 8 * (i - 1) == pos + 8 * i);
            }
        }
    }
}

/// Decoding an embedded encoded string returns the string.
#[verifier::rlimit(50)]
proof fn lemma_decode_encode_str(s: Seq<char>, b: Seq<u8>, pos: int)
    requires
        0 <= pos,
        encode_utf8(s).len() <= u32::MAX,
        pos + spec_encode_string(s).len() <= b.len(),
        b.subrange(pos, pos + spec_encode_string(s).len() as int) == spec_encode_string(s),
    ensures
        spec_decode_str(b, pos) == Some((spec_encode_string(s).len() as int, s)),
{
    broadcast use vstd::utf8::encode_utf8_valid_utf8;
    broadcast use vstd::utf8::encode_utf8_decode_utf8;

    let raw = encode_utf8(s);
    let lenb = spec_u32_bytes(raw.len() as u32);
    assert(spec_encode_string(s) == lenb + raw);
    lemma_subrange_split(b, pos, lenb, raw);
    assert forall|j: int| 0 <= j < 4 implies b[pos + j] == lenb[j] by {
        assert(b.subrange(pos, pos + 4)[j] == b[pos + j]);
    }
    crate::wire::lemma_u32_roundtrip(raw.len() as u32);
    assert(crate::wire::spec_u32_at(b, pos) == raw.len() as u32);
    assert(b.subrange(pos + 4, pos + 4 + raw.len()) == raw);
    assert(crate::foreign::spec_lossy_chars(raw) == s);
}

proof fn lemma_decode_encode_strs(ss: Seq<Seq<char>>, b: Seq<u8>, pos: int)
    requires
        0 <= pos,
        forall|i: int| 0 <= i < ss.len() ==> encode_utf8(#[trigger] ss[i]).len() <= u32::MAX,
        pos + spec_encode_strs(ss).len() <= b.len(),
        b.subrange(pos, pos + spec_encode_strs(ss).len() as int) == spec_encode_strs(ss),
    ensures
        spec_decode_str_seq(ss.len() as int, b, pos) == Some(
            (spec_encode_strs(ss).len() as int, ss),
        ),
    decreases ss.len(),
{
    if ss.len() == 0 {
        assert(spec_decode_str_seq(0, b, pos) == Some((0int, Seq::<Seq<char>>::empty())));
        assert(ss =~= Seq::<Seq<char>>::empty());
    } else {
        let head = spec_encode_string(ss[0]);
        let rest = spec_encode_strs(ss.drop_first());
        lemma_subrange_split(b, pos, head, rest);
        lemma_decode_encode_str(ss[0], b, pos);
        lemma_decode_encode_strs(ss.drop_first(), b, pos + head.len());
        assert(seq![ss[0]] + ss.drop_first() =~= ss);
    }
}

/// Decoding an embedded encoded primitive returns the value.
proof fn lemma_decode_encode_prim(p: PrimitiveDataType, v: FieldValueV, b: Seq<u8>, pos: int)
    requires
        0 <= pos,
        spec_conforms_prim(p, v),
        pos + spec_encode_prim(p, v).len() <= b.len(),
        b.subrange(pos, pos + spec_encode_prim(p, v).len() as int) == spec_encode_prim(p, v),
    ensures
        spec_decode_prim(p, b, pos) == Some((spec_encode_prim(p, v).len() as int, v)),
{
    let enc = spec_encode_prim(p, v);
    assert forall|j: int| 0 <= j < enc.len() implies b[pos + j] == enc[j] by {
        assert(b.subrange(pos, pos + enc.len() as int)[j] == b[pos + j]);
    }
    match v {
        FieldValueV::Bool(x) => {
            assert(b[pos] == enc[0]);
        },
        FieldValueV::I8(x) => {
            assert(b[pos] == enc[0]);
            lemma_i8_cast(x);
        },
        FieldValueV::I16(x) => {
            assert(b[pos] == enc[0] && b[pos + 1] == enc[1]);
            crate::wire::lemma_u16_roundtrip(x as u16);
            lemma_i16_cast(x);
        },
        FieldValueV::I32(x) => {
            assert(b[pos] == enc[0] && b[pos + 1] == enc[1] && b[pos + 2] == enc[2] && b[pos + 3]
                == enc[3]);
            crate::wire::lemma_u32_roundtrip(x as u32);
            lemma_i32_cast(x);
        },
        FieldValueV::I64(x) => {
            lemma_encode_u64s_single(x as u64);
            assert(spec_encode_u64s(seq![x as u64]) == enc);
            assert(b.subrange(pos, pos + 8 * seq![x as u64].len()) =~= b.subrange(
                pos,
                pos + enc.len() as int,
            ));
            lemma_u64s_embed(seq![x as u64], b, pos);
            lemma_i64_cast(x);
            assert(crate::wire::spec_u64_at(b, pos + 8 * 0) == (x as u64));
        },
        FieldValueV::U8(x) => {
            assert(b[pos] == enc[0]);
        },
        FieldValueV::U16(x) => {
            assert(b[pos] == enc[0] && b[pos + 1] == enc[1]);
            crate::wire::lemma_u16_roundtrip(x);
        },
        FieldValueV::U32(x) => {
            assert(b[pos] == enc[0] && b[pos + 1] == enc[1] && b[pos + 2] == enc[2] && b[pos + 3]
                == enc[3]);
            crate::wire::lemma_u32_roundtrip(x);
        },
        FieldValueV::U64(x) => {
            lemma_encode_u64s_single(x);
            assert(spec_encode_u64s(seq![x]) == enc);
            assert(b.subrange(pos, pos + 8 * seq![x].len()) =~= b.subrange(
                pos,
                pos + enc.len() as int,
            ));
            lemma_u64s_embed(seq![x], b, pos);
            assert(crate::wire::spec_u64_at(b, pos + 8 * 0) == x);
        },
        FieldValueV::F32Bits(x) => {
            assert(b[pos] == enc[0] && b[pos + 1] == enc[1] && b[pos + 2] == enc[2] && b[pos + 3]
                == enc[3]);
            crate::wire::lemma_u32_roundtrip(x);
        },
        FieldValueV::F64Bits(x) => {
            lemma_encode_u64s_single(x);
            assert(spec_encode_u64s(seq![x]) == enc);
            assert(b.subrange(pos, pos + 8 * seq![x].len()) =~= b.subrange(
                pos,
                pos + enc.len() as int,
            ));
            lemma_u64s_embed(seq![x], b, pos);
            assert(crate::wire::spec_u64_at(b, pos + 8 * 0) == x);
        },
        FieldValueV::Str(s) => {
            lemma_decode_encode_str(s, b, pos);
        },
        FieldValueV::Time(t) => {
            lemma_encode_times_single(t);
            assert(spec_encode_times(seq![t]) == enc);
            assert(b.subrange(pos, pos + 8 * seq![t].len()) =~= b.subrange(
                pos,
                pos + enc.len() as int,
            ));
            lemma_times_embed(seq![t], b, pos);
            assert(crate::wire::spec_time_at(b, pos + 8 * 0) == t);
        },
        FieldValueV::Duration(t) => {
            lemma_encode_times_single(t);
            assert(spec_encode_times(seq![t]) == enc);
            assert(b.subrange(pos, pos + 8 * seq![t].len()) =~= b.subrange(
                pos,
                pos + enc.len() as int,
            ));
            lemma_times_embed(seq![t], b, pos);
            assert(crate::wire::spec_time_at(b, pos + 8 * 0) == t);
        },
        _ => {
            assert(false);
        },
    }
}

/// Decoding embedded encoded array elements returns the array value.
proof fn lemma_decode_encode_prim_elems(
    p: PrimitiveDataType,
    v: FieldValueV,
    b: Seq<u8>,
    pos: int,
)
    requires
        0 <= pos,
        spec_conforms_prim_elems(p, v),
        pos + spec_encode_prim_elems(v).len() <= b.len(),
        b.subrange(pos, pos + spec_encode_prim_elems(v).len() as int) == spec_encode_prim_elems(
            v,
        ),
    ensures
        spec_decode_prim_array(p, spec_elem_count(v), b, pos) == Some(
            (spec_encode_prim_elems(v).len() as int, v),
        ),
{
    let enc = spec_encode_prim_elems(v);
    match v {
        FieldValueV::BoolArray(xs) => {
            lemma_encode_bools_len(xs);
            lemma_bools_embed(xs, b, pos);
            assert(Seq::new(xs.len(), |i: int| b[pos + i] == 1) =~= xs);
        },
        FieldValueV::I8Array(xs) => {
            let ys = xs.map_values(|x: i8| x as u8);
            assert(enc == ys);
            assert forall|i: int| 0 <= i < xs.len() implies b[pos + i] as i8 == xs[i] by {
                assert(b.subrange(pos, pos + enc.len() as int)[i] == b[pos + i]);
                assert(ys[i] == xs[i] as u8);
                lemma_i8_cast(xs[i]);
            }
            assert(Seq::new(xs.len(), |i: int| b[pos + i] as i8) =~= xs);
        },
        FieldValueV::I16Array(xs) => {
            let ys = xs.map_values(|x: i16| x as u16);
            lemma_encode_u16s_len(ys);
            lemma_u16s_embed(ys, b, pos);
            assert forall|i: int|
                0 <= i < xs.len() implies crate::wire::spec_u16_at(b, pos + 2 * i) as i16
                == xs[i] by {
                assert(crate::wire::spec_u16_at(b, pos + 2 * i) == ys[i]);
                assert(ys[i] == xs[i] as u16);
                lemma_i16_cast(xs[i]);
            }
            assert(Seq::new(xs.len(), |i: int| crate::wire::spec_u16_at(b, pos + 2 * i) as i16)
                =~= xs);
        },
        FieldValueV::I32Array(xs) => {
            let ys = xs.map_values(|x: i32| x as u32);
            lemma_encode_u32s_len(ys);
            lemma_u32s_embed(ys, b, pos);
            assert forall|i: int|
                0 <= i < xs.len() implies crate::wire::spec_u32_at(b, pos + 4 * i) as i32
                == xs[i] by {
                assert(crate::wire::spec_u32_at(b, pos + 4 * i) == ys[i]);
                assert(ys[i] == xs[i] as u32);
                lemma_i32_cast(xs[i]);
            }
            assert(Seq::new(xs.len(), |i: int| crate::wire::spec_u32_at(b, pos + 4 * i) as i32)
                =~= xs);
        },
        FieldValueV::I64Array(xs) => {
            let ys = xs.map_values(|x: i64| x as u64);
            lemma_encode_u64s_len(ys);
            lemma_u64s_embed(ys, b, pos);
            assert forall|i: int|
                0 <= i < xs.len() implies crate::wire::spec_u64_at(b, pos + 8 * i) as i64
                == xs[i] by {
                assert(crate::wire::spec_u64_at(b, pos + 8 * i) == ys[i]);
                assert(ys[i] == xs[i] as u64);
                lemma_i64_cast(xs[i]);
            }
            assert(Seq::new(xs.len(), |i: int| crate::wire::spec_u64_at(b, pos + 8 * i) as i64)
                =~= xs);
        },
        FieldValueV::U8Array(xs) => {
            assert forall|i: int| 0 <= i < xs.len() implies b[pos + i] == xs[i] by {
                assert(b.subrange(pos, pos + enc.len() as int)[i] == b[pos + i]);
            }
            assert(Seq::new(xs.len(), |i: int| b[pos + i]) =~= xs);
        },
        FieldValueV::U16Array(xs) => {
            lemma_encode_u16s_len(xs);
            lemma_u16s_embed(xs, b, pos);
            assert(Seq::new(xs.len(), |i: int| crate::wire::spec_u16_at(b, pos + 2 * i))
                =~= xs);
        },
        FieldValueV::U32Array(xs) => {
            lemma_encode_u32s_len(xs);
            lemma_u32s_embed(xs, b, pos);
            assert(Seq::new(xs.len(), |i: int| crate::wire::spec_u32_at(b, pos + 4 * i))
                =~= xs);
        },
        FieldValueV::U64Array(xs) => {
            lemma_encode_u64s_len(xs);
            lemma_u64s_embed(xs, b, pos);
            assert(Seq::new(xs.len(), |i: int| crate::wire::spec_u64_at(b, pos + 8 * i))
                =~= xs);
        },
        FieldValueV::F32BitsArray(xs) => {
            lemma_encode_u32s_len(xs);
            lemma_u32s_embed(xs, b, pos);
            assert(Seq::new(xs.len(), |i: int| crate::wire::spec_u32_at(b, pos + 4 * i))
                =~= xs);
        },
        FieldValueV::F64BitsArray(xs) => {
            lemma_encode_u64s_len(xs);
            lemma_u64s_embed(xs, b, pos);
            assert(Seq::new(xs.len(), |i: int| crate::wire::spec_u64_at(b, pos + 8 * i))
                =~= xs);
        },
        FieldValueV::StrArray(ss) => {
            lemma_decode_encode_strs(ss, b, pos);
        },
        FieldValueV::TimeArray(xs) => {
            lemma_encode_times_len(xs);
            lemma_times_embed(xs, b, pos);
            assert(Seq::new(xs.len(), |i: int| crate::wire::spec_time_at(b, pos + 8 * i))
                =~= xs);
        },
        FieldValueV::DurationArray(xs) => {
            lemma_encode_times_len(xs);
            lemma_times_embed(xs, b, pos);
            assert(Seq::new(xs.len(), |i: int| crate::wire::spec_time_at(b, pos + 8 * i))
                =~= xs);
        },
        _ => {
            assert(false);
        },
    }
}

/// Decoding an embedded encoded value of type `dt` returns the value
/// and consumes exactly the encoding.
pub proof fn lemma_decode_encode_dt(dt: DataTypeV, v: FieldValueV, b: Seq<u8>, pos: int)
    requires
        0 <= pos,
        spec_conforms_dt(dt, v),
        pos + spec_encode_dt(dt, v).len() <= b.len(),
        b.subrange(pos, pos + spec_encode_dt(dt, v).len() as int) == spec_encode_dt(dt, v),
    ensures
        spec_decode_dt(dt, b, pos) == Some((spec_encode_dt(dt, v).len() as int, v)),
    decreases dt, 1int, 0int,
{
    match dt {
        DataTypeV::Primitive(p) => {
            lemma_decode_encode_prim(p, v, b, pos);
        },
        DataTypeV::PrimitiveArray(k, p) => {
            lemma_decode_encode_prim_elems(p, v, b, pos);
        },
        DataTypeV::PrimitiveVector(p) => {
            let cnt = spec_elem_count(v);
            let lenb = spec_u32_bytes(cnt as u32);
            let elems = spec_encode_prim_elems(v);
            assert(spec_encode_dt(dt, v) == lenb + elems);
            lemma_subrange_split(b, pos, lenb, elems);
            assert forall|j: int| 0 <= j < 4 implies b[pos + j] == lenb[j] by {
                assert(b.subrange(pos, pos + 4)[j] == b[pos + j]);
            }
            crate::wire::lemma_u32_roundtrip(cnt as u32);
            assert(crate::wire::spec_u32_at(b, pos) == cnt as u32);
            lemma_decode_encode_prim_elems(p, v, b, pos + 4);
        },
        DataTypeV::Complex(m) => {
            match v {
                FieldValueV::Msg(mv) => {
                    lemma_decode_encode_msg(m, mv, b, pos);
                },
                _ => {},
            }
        },
        DataTypeV::ComplexArray(k, m) => {
            match v {
                FieldValueV::MsgArray(vs) => {
                    lemma_decode_encode_msgs(m, vs, b, pos);
                },
                _ => {},
            }
        },
        DataTypeV::ComplexVector(m) => {
            match v {
                FieldValueV::MsgArray(vs) => {
                    let lenb = spec_u32_bytes(vs.len() as u32);
                    let elems = spec_encode_msgs(m, vs);
                    assert(spec_encode_dt(dt, v) == lenb + elems);
                    lemma_subrange_split(b, pos, lenb, elems);
                    assert forall|j: int| 0 <= j < 4 implies b[pos + j] == lenb[j] by {
                        assert(b.subrange(pos, pos + 4)[j] == b[pos + j]);
                    }
                    crate::wire::lemma_u32_roundtrip(vs.len() as u32);
                    assert(crate::wire::spec_u32_at(b, pos) == vs.len() as u32);
                    lemma_decode_encode_msgs(m, vs, b, pos + 4);
                },
                _ => {},
            }
        },
    }
}

/// Decoding an embedded encoded message returns the message value.
pub proof fn lemma_decode_encode_msg(m: MsgTypeV, mv: MsgValueV, b: Seq<u8>, pos: int)
    requires
        0 <= pos,
        spec_conforms_msg(m, mv),
        pos + spec_encode_msg(m, mv).len() <= b.len(),
        b.subrange(pos, pos + spec_encode_msg(m, mv).len() as int) == spec_encode_msg(m, mv),
    ensures
        spec_decode_msg(m, b, pos) == Some((spec_encode_msg(m, mv).len() as int, mv)),
    decreases m, 0int, 0int,
{
    lemma_decode_encode_fields(m.fields, mv.fields, b, pos);
}

proof fn lemma_decode_encode_fields(
    fs: Seq<FieldV>,
    nvs: Seq<(Seq<char>, FieldValueV)>,
    b: Seq<u8>,
    pos: int,
)
    requires
        0 <= pos,
        spec_conforms_fields(fs, nvs),
        pos + spec_encode_fields(fs, nvs).len() <= b.len(),
        b.subrange(pos, pos + spec_encode_fields(fs, nvs).len() as int) == spec_encode_fields(
            fs,
            nvs,
        ),
    ensures
        spec_decode_fields(fs, b, pos) == Some(
            (spec_encode_fields(fs, nvs).len() as int, nvs),
        ),
    decreases fs, 1int, 0int,
{
    if fs.len() == 0 {
        assert(nvs =~= Seq::<(Seq<char>, FieldValueV)>::empty());
    } else {
        let head = spec_encode_dt(fs[0].field_type, nvs[0].1);
        let rest = spec_encode_fields(fs.drop_first(), nvs.drop_first());
        lemma_subrange_split(b, pos, head, rest);
        lemma_decode_encode_dt(fs[0].field_type, nvs[0].1, b, pos);
        lemma_decode_encode_fields(fs.drop_first(), nvs.drop_first(), b, pos + head.len());
        assert((nvs[0].0, nvs[0].1) == nvs[0]);
        assert(seq![(fs[0].field_name, nvs[0].1)] + nvs.drop_first() =~= nvs);
    }
}

proof fn lemma_decode_encode_msgs(m: MsgTypeV, vs: Seq<MsgValueV>, b: Seq<u8>, pos: int)
    requires
        0 <= pos,
        spec_conforms_msgs(m, vs),
        pos + spec_encode_msgs(m, vs).len() <= b.len(),
        b.subrange(pos, pos + spec_encode_msgs(m, vs).len() as int) == spec_encode_msgs(m, vs),
    ensures
        spec_decode_msg_seq(m, vs.len() as int, b, pos) == Some(
            (spec_encode_msgs(m, vs).len() as int, vs),
        ),
    decreases m, 1int, vs.len(),
{
    if vs.len() == 0 {
        assert(vs =~= Seq::<MsgValueV>::empty());
    } else {
        let head = spec_encode_msg(m, vs[0]);
        let rest = spec_encode_msgs(m, vs.drop_first());
        lemma_subrange_split(b, pos, head, rest);
        lemma_decode_encode_msg(m, vs[0], b, pos);
        lemma_decode_encode_msgs(m, vs.drop_first(), b, pos + head.len());
        assert(seq![vs[0]] + vs.drop_first() =~= vs);
    }
}

/// The round-trip law: a payload synthesized by re-emitting a message
/// value in bag encoding parses back to the original value, consuming
/// the whole payload. This holds for every schema and every conforming
/// value.
pub proof fn lemma_try_parse_round_trip(m: MsgTypeV, mv: MsgValueV)
    requires
        spec_conforms_msg(m, mv),
    ensures
        spec_try_parse(m, spec_encode_msg(m, mv)) == Ok::<(int, FieldValueV), RosError>(
            (spec_encode_msg(m, mv).len() as int, FieldValueV::Msg(mv)),
        ),
{
    let enc = spec_encode_msg(m, mv);
    assert(enc.subrange(0, enc.len() as int) =~= enc);
    lemma_decode_encode_msg(m, mv, enc, 0);
}

} // verus!
