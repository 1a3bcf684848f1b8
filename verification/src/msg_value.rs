//! Decoded message values.
//!
//! Floating-point fields are carried as their raw IEEE-754 bit
//! patterns (`u32` / `u64`), so equality and round-trips are exact;
//! `time` and `duration` are nanosecond counts.
use vstd::prelude::*;

verus! {

/// A decoded message: field name to value, in schema definition order.
#[derive(Debug)]
pub struct MsgValue {
    /// The decoded fields, in definition order.
    pub fields: Vec<(String, FieldValue)>,
}

/// A decoded field value.
#[derive(Debug)]
pub enum FieldValue {
    /// `bool`: one byte, true exactly for `0x01`.
    Bool(bool),
    /// `int8` / `byte`.
    I8(i8),
    /// `int16`.
    I16(i16),
    /// `int32`.
    I32(i32),
    /// `int64`.
    I64(i64),
    /// `uint8` / `char`.
    U8(u8),
    /// `uint16`.
    U16(u16),
    /// `uint32`.
    U32(u32),
    /// `uint64`.
    U64(u64),
    /// `float32` as raw bits.
    F32Bits(u32),
    /// `float64` as raw bits.
    F64Bits(u64),
    /// `string`, decoded as lossy UTF-8.
    Str(String),
    /// `time` in nanoseconds.
    Time(u64),
    /// `duration` in nanoseconds.
    Duration(u64),
    /// `bool[..]` / `bool[]`.
    BoolArray(Vec<bool>),
    /// `int8[..]` / `int8[]`.
    I8Array(Vec<i8>),
    /// `int16[..]` / `int16[]`.
    I16Array(Vec<i16>),
    /// `int32[..]` / `int32[]`.
    I32Array(Vec<i32>),
    /// `int64[..]` / `int64[]`.
    I64Array(Vec<i64>),
    /// `uint8[..]` / `uint8[]`.
    U8Array(Vec<u8>),
    /// `uint16[..]` / `uint16[]`.
    U16Array(Vec<u16>),
    /// `uint32[..]` / `uint32[]`.
    U32Array(Vec<u32>),
    /// `uint64[..]` / `uint64[]`.
    U64Array(Vec<u64>),
    /// `float32[..]` / `float32[]`, elements as raw bits.
    F32BitsArray(Vec<u32>),
    /// `float64[..]` / `float64[]`, elements as raw bits.
    F64BitsArray(Vec<u64>),
    /// `string[..]` / `string[]`.
    StrArray(Vec<String>),
    /// `time[..]` / `time[]`.
    TimeArray(Vec<u64>),
    /// `duration[..]` / `duration[]`.
    DurationArray(Vec<u64>),
    /// A nested message.
    Msg(MsgValue),
    /// An array or vector of nested messages.
    MsgArray(Vec<MsgValue>),
}

/// Specification view of [`MsgValue`].
pub ghost struct MsgValueV {
    pub fields: Seq<(Seq<char>, FieldValueV)>,
}

/// Specification view of [`FieldValue`].
pub ghost enum FieldValueV {
    Bool(bool),
    I8(i8),
    I16(i16),
    I32(i32),
    I64(i64),
    U8(u8),
    U16(u16),
    U32(u32),
    U64(u64),
    F32Bits(u32),
    F64Bits(u64),
    Str(Seq<char>),
    Time(u64),
    Duration(u64),
    BoolArray(Seq<bool>),
    I8Array(Seq<i8>),
    I16Array(Seq<i16>),
    I32Array(Seq<i32>),
    I64Array(Seq<i64>),
    U8Array(Seq<u8>),
    U16Array(Seq<u16>),
    U32Array(Seq<u32>),
    U64Array(Seq<u64>),
    F32BitsArray(Seq<u32>),
    F64BitsArray(Seq<u64>),
    StrArray(Seq<Seq<char>>),
    TimeArray(Seq<u64>),
    DurationArray(Seq<u64>),
    Msg(MsgValueV),
    MsgArray(Seq<MsgValueV>),
}

pub open spec fn field_value_view(v: FieldValue) -> FieldValueV
    decreases v,
{
    match v {
        FieldValue::Bool(x) => FieldValueV::Bool(x),
        FieldValue::I8(x) => FieldValueV::I8(x),
        FieldValue::I16(x) => FieldValueV::I16(x),
        FieldValue::I32(x) => FieldValueV::I32(x),
        FieldValue::I64(x) => FieldValueV::I64(x),
        FieldValue::U8(x) => FieldValueV::U8(x),
        FieldValue::U16(x) => FieldValueV::U16(x),
        FieldValue::U32(x) => FieldValueV::U32(x),
        FieldValue::U64(x) => FieldValueV::U64(x),
        FieldValue::F32Bits(x) => FieldValueV::F32Bits(x),
        FieldValue::F64Bits(x) => FieldValueV::F64Bits(x),
        FieldValue::Str(s) => FieldValueV::Str(s@),
        FieldValue::Time(x) => FieldValueV::Time(x),
        FieldValue::Duration(x) => FieldValueV::Duration(x),
        FieldValue::BoolArray(a) => FieldValueV::BoolArray(a@),
        FieldValue::I8Array(a) => FieldValueV::I8Array(a@),
        FieldValue::I16Array(a) => FieldValueV::I16Array(a@),
        FieldValue::I32Array(a) => FieldValueV::I32Array(a@),
        FieldValue::I64Array(a) => FieldValueV::I64Array(a@),
        FieldValue::U8Array(a) => FieldValueV::U8Array(a@),
        FieldValue::U16Array(a) => FieldValueV::U16Array(a@),
        FieldValue::U32Array(a) => FieldValueV::U32Array(a@),
        FieldValue::U64Array(a) => FieldValueV::U64Array(a@),
        FieldValue::F32BitsArray(a) => FieldValueV::F32BitsArray(a@),
        FieldValue::F64BitsArray(a) => FieldValueV::F64BitsArray(a@),
        FieldValue::StrArray(a) => FieldValueV::StrArray(a.deep_view()),
        FieldValue::TimeArray(a) => FieldValueV::TimeArray(a@),
        FieldValue::DurationArray(a) => FieldValueV::DurationArray(a@),
        FieldValue::Msg(m) => FieldValueV::Msg(msg_value_view(m)),
        FieldValue::MsgArray(a) => FieldValueV::MsgArray(msg_values_view(a@)),
    }
}

pub open spec fn msg_value_view(m: MsgValue) -> MsgValueV
    decreases m,
{
    MsgValueV { fields: named_values_view(m.fields@) }
}

pub open spec fn named_values_view(fs: Seq<(String, FieldValue)>) -> Seq<(Seq<char>, FieldValueV)>
    decreases fs,
{
    if fs.len() == 0 {
        Seq::empty()
    } else {
        seq![(fs[0].0@, field_value_view(fs[0].1))] + named_values_view(fs.drop_first())
    }
}

pub open spec fn msg_values_view(vs: Seq<MsgValue>) -> Seq<MsgValueV>
    decreases vs,
{
    if vs.len() == 0 {
        Seq::empty()
    } else {
        seq![msg_value_view(vs[0])] + msg_values_view(vs.drop_first())
    }
}

impl View for FieldValue {
    type V = FieldValueV;

    open spec fn view(&self) -> FieldValueV {
        field_value_view(*self)
    }
}

impl DeepView for FieldValue {
    type V = FieldValueV;

    open spec fn deep_view(&self) -> FieldValueV {
        self@
    }
}

impl View for MsgValue {
    type V = MsgValueV;

    open spec fn view(&self) -> MsgValueV {
        msg_value_view(*self)
    }
}

impl DeepView for MsgValue {
    type V = MsgValueV;

    open spec fn deep_view(&self) -> MsgValueV {
        self@
    }
}

pub broadcast proof fn lemma_named_values_view_len(fs: Seq<(String, FieldValue)>)
    ensures
        #[trigger] named_values_view(fs).len() == fs.len(),
    decreases fs,
{
    if fs.len() > 0 {
        lemma_named_values_view_len(fs.drop_first());
    }
}

pub broadcast proof fn lemma_named_values_view_index(fs: Seq<(String, FieldValue)>, i: int)
    requires
        0 <= i < fs.len(),
    ensures
        named_values_view(fs).len() == fs.len(),
        #[trigger] named_values_view(fs)[i] == (fs[i].0@, field_value_view(fs[i].1)),
    decreases fs,
{
    lemma_named_values_view_len(fs);
    if i > 0 {
        lemma_named_values_view_index(fs.drop_first(), i - 1);
    }
}

pub broadcast proof fn lemma_msg_values_view_len(vs: Seq<MsgValue>)
    ensures
        #[trigger] msg_values_view(vs).len() == vs.len(),
    decreases vs,
{
    if vs.len() > 0 {
        lemma_msg_values_view_len(vs.drop_first());
    }
}

pub broadcast proof fn lemma_msg_values_view_index(vs: Seq<MsgValue>, i: int)
    requires
        0 <= i < vs.len(),
    ensures
        msg_values_view(vs).len() == vs.len(),
        #[trigger] msg_values_view(vs)[i] == msg_value_view(vs[i]),
    decreases vs,
{
    lemma_msg_values_view_len(vs);
    if i > 0 {
        lemma_msg_values_view_index(vs.drop_first(), i - 1);
    }
}

/// The value of the first field named `name`.
pub open spec fn spec_msg_field_get(fs: Seq<(Seq<char>, FieldValueV)>, name: Seq<char>) -> Option<
    FieldValueV,
>
    decreases fs.len(),
{
    if fs.len() == 0 {
        None
    } else if fs[0].0 == name {
        Some(fs[0].1)
    } else {
        spec_msg_field_get(fs.drop_first(), name)
    }
}

impl MsgValue {
    /// The field names, in definition order.
    pub fn fields(&self) -> (r: Vec<String>)
        ensures
            r.deep_view().len() == self@.fields.len(),
            forall|i: int|
                0 <= i < r.deep_view().len() ==> r.deep_view()[i] == self@.fields[i].0,
    {
        let n = self.fields.len();
        let mut out: Vec<String> = Vec::new();
        let mut i: usize = 0;
        while i < n
            invariant
                0 <= i <= n,
                n == self.fields@.len(),
                out@.len() == i,
                forall|j: int| 0 <= j < i ==> out@[j]@ == (#[trigger] self.fields@[j]).0@,
            decreases n - i,
        {
            out.push(self.fields[i].0.clone());
            i = i + 1;
        }
        proof {
            lemma_named_values_view_len(self.fields@);
            assert forall|j: int| 0 <= j < n implies out.deep_view()[j] == self@.fields[j].0 by {
                lemma_named_values_view_index(self.fields@, j);
            }
        }
        out
    }

    /// Looks up a field by name (first match in definition order).
    pub fn field(&self, name: &str) -> (r: Option<&FieldValue>)
        ensures
            match r {
                Some(v) => spec_msg_field_get(self@.fields, name@) == Some(v@),
                None => spec_msg_field_get(self@.fields, name@) is None,
            },
    {
        let n = self.fields.len();
        let mut i: usize = 0;
        proof {
            lemma_named_values_view_len(self.fields@);
            assert(self@.fields.skip(0) =~= self@.fields);
        }
        while i < n
            invariant
                0 <= i <= n,
                n == self.fields@.len(),
                n == self@.fields.len(),
                spec_msg_field_get(self@.fields, name@) == spec_msg_field_get(
                    self@.fields.skip(i as int),
                    name@,
                ),
            decreases n - i,
        {
            proof {
                lemma_named_values_view_index(self.fields@, i as int);
                assert(self@.fields.skip(i as int)[0] == self@.fields[i as int]);
            }
            if crate::strutil::str_eq(self.fields[i].0.as_str(), name) {
                return Some(&self.fields[i].1);
            }
            assert(self@.fields.skip(i as int).drop_first() =~= self@.fields.skip(i as int + 1));
            i = i + 1;
        }
        assert(self@.fields.skip(n as int) =~= Seq::<(Seq<char>, FieldValueV)>::empty());
        None
    }
}

} // verus!
