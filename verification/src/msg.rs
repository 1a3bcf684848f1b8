//! Compiled message types and the global definition cache.
use vstd::prelude::*;

use crate::const_field::{spec_const_field, ConstField};
use crate::data_type::{
    dt_wf, fields_wf, msg_type_view, msg_wf, spec_fields_size, spec_msg_size, ConstFieldV, FieldV,
    MsgTypeV,
};
use crate::error::RosError;
use crate::field::{spec_field_from_line, Field};
use crate::parse_msg::{MsgLine, MsgLineV};
use crate::strutil::str_eq;

verus! {

/// A compiled message type: constants and fields in definition order,
/// with the fixed byte width memoised at construction.
#[derive(Debug)]
pub struct MsgType {
    /// Constants, in definition order.
    pub constants: Vec<ConstField>,
    /// Fields, in definition order; this order is the payload layout.
    pub fields: Vec<Field>,
    /// Memoised fixed byte width (see [`spec_msg_size`]).
    pub fixed_size: Option<usize>,
}

impl MsgType {
    /// Fixed byte width of a payload of this type, or `None` where it
    /// depends on the payload.
    pub fn known_size(&self) -> (r: Option<usize>)
        ensures
            msg_wf(self@) ==> r == spec_msg_size(self@),
    {
        self.fixed_size
    }

    /// Duplicates the type, preserving its view.
    pub fn duplicate(&self) -> (r: MsgType)
        ensures
            r@ == self@,
        decreases *self,
    {
        let mut constants: Vec<ConstField> = Vec::new();
        let mut i: usize = 0;
        while i < self.constants.len()
            invariant
                0 <= i <= self.constants@.len(),
                constants@.len() == i,
                forall|j: int|
                    0 <= j < i ==> constants@[j]@ == (#[trigger] self.constants@[j])@,
            decreases self.constants@.len() - i,
        {
            constants.push(self.constants[i].duplicate());
            i = i + 1;
        }
        let mut fields: Vec<Field> = Vec::new();
        let mut k: usize = 0;
        while k < self.fields.len()
            invariant
                0 <= k <= self.fields@.len(),
                fields@.len() == k,
                forall|j: int| 0 <= j < k ==> fields@[j]@ == (#[trigger] self.fields@[j])@,
            decreases self.fields@.len() - k,
        {
            fields.push(self.fields[k].duplicate());
            k = k + 1;
        }
        let r = MsgType { constants, fields, fixed_size: self.fixed_size };
        proof {
            broadcast use crate::data_type::lemma_fields_view_index;
            broadcast use crate::data_type::lemma_fields_view_len;

            assert(r@.constants =~= self@.constants);
            crate::data_type::lemma_fields_view_len(r.fields@);
            crate::data_type::lemma_fields_view_len(self.fields@);
            assert forall|j: int| 0 <= j < r.fields@.len() implies crate::data_type::fields_view(
                r.fields@,
            )[j] == crate::data_type::fields_view(self.fields@)[j] by {
                crate::data_type::lemma_fields_view_index(r.fields@, j);
                crate::data_type::lemma_fields_view_index(self.fields@, j);
            }
            assert(r@.fields =~= self@.fields);
        }
        r
    }
}

/// Computes the summed fixed size of `fields[i..]`, as
/// [`spec_fields_size`] does.
pub fn fields_size_from(fields: &Vec<Field>, i: usize) -> (r: Option<usize>)
    requires
        i <= fields@.len(),
    ensures
        fields_wf(fields.deep_view().skip(i as int)) ==> r == spec_fields_size(
            fields.deep_view().skip(i as int),
        ),
    decreases fields@.len() - i,
{
    let ghost fs = fields.deep_view().skip(i as int);
    if i == fields.len() {
        assert(fs =~= Seq::<FieldV>::empty());
        return Some(0);
    }
    assert(fs[0] == fields.deep_view()[i as int]);
    assert(fs.drop_first() =~= fields.deep_view().skip(i as int + 1));
    let head = fields[i].field_type.known_size();
    let rest = fields_size_from(fields, i + 1);
    match (head, rest) {
        (Some(a), Some(b)) => a.checked_add(b),
        _ => None,
    }
}

// ---------------------------------------------------------------------------
// Compiling parsed lines
// ---------------------------------------------------------------------------

/// The constants and fields compiled from parsed lines, in definition
/// order; the first failing line decides the error.
pub open spec fn spec_msg_from_lines(
    cv: Seq<(Seq<char>, MsgTypeV)>,
    lines: Seq<MsgLineV>,
    ns: Seq<char>,
) -> Result<(Seq<ConstFieldV>, Seq<FieldV>), RosError>
    decreases lines.len(),
{
    if lines.len() == 0 {
        Ok((Seq::empty(), Seq::empty()))
    } else {
        match spec_msg_from_lines(cv, lines.drop_last(), ns) {
            Err(e) => Err(e),
            Ok((cs, fs)) => match lines.last() {
                MsgLineV::Const(cl) => match spec_const_field(
                    cl.const_type,
                    cl.const_name,
                    cl.const_value,
                ) {
                    Ok(c) => Ok((cs.push(c), fs)),
                    Err(e) => Err(e),
                },
                MsgLineV::Field(fl) => match spec_field_from_line(
                    cv,
                    fl.field_type,
                    fl.field_name,
                    ns,
                ) {
                    Ok(f) => Ok((cs, fs.push(f))),
                    Err(e) => Err(e),
                },
            },
        }
    }
}

/// Once a prefix of the lines fails, the whole sequence fails the same
/// way.
pub proof fn lemma_msg_from_lines_err_prefix(
    cv: Seq<(Seq<char>, MsgTypeV)>,
    lines: Seq<MsgLineV>,
    ns: Seq<char>,
    k: int,
)
    requires
        0 <= k <= lines.len(),
        spec_msg_from_lines(cv, lines.take(k), ns) is Err,
    ensures
        spec_msg_from_lines(cv, lines, ns) == spec_msg_from_lines(cv, lines.take(k), ns),
    decreases lines.len() - k,
{
    if k == lines.len() {
        assert(lines.take(k) =~= lines);
    } else {
        assert(lines.take(k + 1).drop_last() =~= lines.take(k));
        lemma_msg_from_lines_err_prefix(cv, lines, ns, k + 1);
    }
}

/// What [`MsgType::try_from_parsed_lines`] yields: the compiled type
/// with its fixed size memoised.
pub open spec fn spec_try_from_parsed_lines(
    cv: Seq<(Seq<char>, MsgTypeV)>,
    lines: Seq<MsgLineV>,
    ns: Seq<char>,
) -> Result<MsgTypeV, RosError> {
    match spec_msg_from_lines(cv, lines, ns) {
        Err(e) => Err(e),
        Ok((cs, fs)) => Ok(
            MsgTypeV { constants: cs, fields: fs, fixed_size: spec_fields_size(fs) },
        ),
    }
}

/// Pointwise well-formed fields form a well-formed sequence.
pub proof fn lemma_fields_wf_intro(fs: Seq<FieldV>)
    requires
        forall|i: int| 0 <= i < fs.len() ==> dt_wf(#[trigger] fs[i].field_type),
    ensures
        fields_wf(fs),
    decreases fs.len(),
{
    if fs.len() > 0 {
        assert(forall|i: int|
            0 <= i < fs.drop_first().len() ==> fs.drop_first()[i] == fs[i + 1]);
        lemma_fields_wf_intro(fs.drop_first());
    }
}

/// The recursive field view of a vector is its deep view.
pub proof fn lemma_vec_fields_view(v: Vec<Field>)
    ensures
        crate::data_type::fields_view(v@) == v.deep_view(),
{
    crate::data_type::lemma_fields_view_len(v@);
    assert forall|i: int|
        0 <= i < v@.len() implies crate::data_type::fields_view(v@)[i] == v.deep_view()[i] by {
        crate::data_type::lemma_fields_view_index(v@, i);
    }
    assert(crate::data_type::fields_view(v@) =~= v.deep_view());
}

impl MsgType {
    /// Compiles parsed lines into a message type: constants and fields
    /// in definition order, with the fixed size memoised.
    pub fn try_from_parsed_lines(
        msg_def_cache: &MsgDefCache,
        parsed_lines: &Vec<MsgLine>,
        namespace: &str,
    ) -> (r: Result<MsgType, RosError>)
        ensures
            cache_wf(msg_def_cache@) ==> match r {
                Ok(m) => spec_try_from_parsed_lines(
                    msg_def_cache@,
                    parsed_lines.deep_view(),
                    namespace@,
                ) == Ok::<MsgTypeV, RosError>(m@) && msg_wf(m@),
                Err(e) => spec_try_from_parsed_lines(
                    msg_def_cache@,
                    parsed_lines.deep_view(),
                    namespace@,
                ) == Err::<MsgTypeV, RosError>(e),
            },
    {
        let ghost cv = msg_def_cache@;
        let ghost all = parsed_lines.deep_view();
        let n = parsed_lines.len();
        let mut constants: Vec<ConstField> = Vec::new();
        let mut fields: Vec<Field> = Vec::new();
        let mut i: usize = 0;
        assert(all.take(0) =~= Seq::<MsgLineV>::empty());
        assert(constants.deep_view() =~= Seq::<ConstFieldV>::empty());
        assert(fields.deep_view() =~= Seq::<FieldV>::empty());
        while i < n
            invariant
                0 <= i <= n,
                n == parsed_lines@.len(),
                all == parsed_lines.deep_view(),
                cv == msg_def_cache@,
                spec_msg_from_lines(cv, all.take(i as int), namespace@) == Ok::<
                    (Seq<ConstFieldV>, Seq<FieldV>),
                    RosError,
                >((constants.deep_view(), fields.deep_view())),
                cache_wf(cv) ==> forall|j: int|
                    0 <= j < fields.deep_view().len() ==> dt_wf(
                        #[trigger] fields.deep_view()[j].field_type,
                    ),
            decreases n - i,
        {
            assert(all[i as int] == parsed_lines@[i as int]@);
            assert(all.take(i as int + 1).drop_last() =~= all.take(i as int));
            assert(all.take(i as int + 1).last() == all[i as int]);
            match &parsed_lines[i] {
                MsgLine::Const(cl) => {
                    match ConstField::try_from(cl) {
                        Ok(c) => {
                            let ghost pre = constants.deep_view();
                            constants.push(c);
                            assert(constants.deep_view() =~= pre.push(c@));
                        },
                        Err(e) => {
                            proof {
                                lemma_msg_from_lines_err_prefix(cv, all, namespace@, i + 1);
                            }
                            return Err(e);
                        },
                    }
                },
                MsgLine::Field(fl) => {
                    match Field::try_from_field_line(msg_def_cache, fl, namespace) {
                        Ok(f) => {
                            let ghost fv = f@;
                            let ghost pre = fields.deep_view();
                            fields.push(f);
                            assert(fields.deep_view() =~= pre.push(fv));
                        },
                        Err(e) => {
                            proof {
                                lemma_msg_from_lines_err_prefix(cv, all, namespace@, i + 1);
                            }
                            return Err(e);
                        },
                    }
                },
            }
            i = i + 1;
        }
        assert(all.take(n as int) =~= all);
        let fixed_size = fields_size_from(&fields, 0);
        proof {
            assert(fields.deep_view().skip(0) =~= fields.deep_view());
            if cache_wf(cv) {
                lemma_fields_wf_intro(fields.deep_view());
            }
        }
        let m = MsgType { constants, fields, fixed_size };
        proof {
            lemma_vec_fields_view(m.fields);
            assert(m@.constants =~= m.constants.deep_view());
            if cache_wf(cv) {
                assert(m@ == (MsgTypeV {
                    constants: m.constants.deep_view(),
                    fields: m.fields.deep_view(),
                    fixed_size: spec_fields_size(m.fields.deep_view()),
                }));
            }
        }
        Ok(m)
    }
}

// ---------------------------------------------------------------------------
// The definition cache
// ---------------------------------------------------------------------------

/// A global compile cache keyed by fully qualified type name
/// (`namespace/Name`), shared across the connections of a bag.
#[derive(Debug)]
pub struct MsgDefCache {
    entries: Vec<(String, MsgType)>,
}

impl View for MsgDefCache {
    type V = Seq<(Seq<char>, MsgTypeV)>;

    closed spec fn view(&self) -> Seq<(Seq<char>, MsgTypeV)> {
        Seq::new(
            self.entries@.len(),
            |i: int| (self.entries@[i].0@, msg_type_view(self.entries@[i].1)),
        )
    }
}

/// The first cache entry named `name`.
pub open spec fn spec_cache_get(cv: Seq<(Seq<char>, MsgTypeV)>, name: Seq<char>) -> Option<
    MsgTypeV,
>
    decreases cv.len(),
{
    if cv.len() == 0 {
        None
    } else if cv[0].0 == name {
        Some(cv[0].1)
    } else {
        spec_cache_get(cv.drop_first(), name)
    }
}

/// Every cached type is well formed.
pub open spec fn cache_wf(cv: Seq<(Seq<char>, MsgTypeV)>) -> bool {
    forall|i: int| 0 <= i < cv.len() ==> msg_wf(#[trigger] cv[i].1)
}

pub proof fn lemma_cache_get_wf(cv: Seq<(Seq<char>, MsgTypeV)>, name: Seq<char>)
    requires
        cache_wf(cv),
    ensures
        match spec_cache_get(cv, name) {
            Some(m) => msg_wf(m),
            None => true,
        },
    decreases cv.len(),
{
    if cv.len() > 0 && cv[0].0 != name {
        assert(forall|i: int|
            0 <= i < cv.drop_first().len() ==> cv.drop_first()[i] == cv[i + 1]);
        lemma_cache_get_wf(cv.drop_first(), name);
    }
}

impl MsgDefCache {
    /// An empty cache.
    pub fn new() -> (r: MsgDefCache)
        ensures
            r@ == Seq::<(Seq<char>, MsgTypeV)>::empty(),
    {
        let r = MsgDefCache { entries: Vec::new() };
        assert(r@ =~= Seq::<(Seq<char>, MsgTypeV)>::empty());
        r
    }

    /// Looks up a fully qualified name.
    pub fn get(&self, name: &str) -> (r: Option<&MsgType>)
        ensures
            match r {
                Some(m) => spec_cache_get(self@, name@) == Some(m@),
                None => spec_cache_get(self@, name@) is None,
            },
    {
        let n = self.entries.len();
        let mut i: usize = 0;
        assert(self@.skip(0) =~= self@);
        while i < n
            invariant
                0 <= i <= n,
                n == self.entries@.len(),
                n == self@.len(),
                spec_cache_get(self@, name@) == spec_cache_get(self@.skip(i as int), name@),
            decreases n - i,
        {
            assert(self@.skip(i as int)[0] == self@[i as int]);
            if str_eq(self.entries[i].0.as_str(), name) {
                return Some(&self.entries[i].1);
            }
            assert(self@.skip(i as int).drop_first() =~= self@.skip(i as int + 1));
            i = i + 1;
        }
        assert(self@.skip(n as int) =~= Seq::<(Seq<char>, MsgTypeV)>::empty());
        None
    }

    /// Adds an entry at the end.
    pub fn insert(&mut self, name: String, m: MsgType)
        ensures
            final(self)@ == old(self)@.push((name@, m@)),
    {
        let ghost nv = (name@, msg_type_view(m));
        self.entries.push((name, m));
        assert(final(self)@ =~= old(self)@.push(nv));
    }
}

} // verus!
