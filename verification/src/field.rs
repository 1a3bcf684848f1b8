//! Named fields of a message definition.
use vstd::prelude::*;

use crate::data_type::{
    dt_wf, spec_try_from_string, DataType, DataTypeV, FieldV,
};
use crate::error::RosError;
use crate::msg::{cache_wf, MsgDefCache};
use crate::parse_msg::FieldLine;

verus! {

/// A named field of a message definition, in definition order.
#[derive(Debug)]
pub struct Field {
    /// The field's name.
    pub field_name: String,
    /// The field's data type.
    pub field_type: DataType,
}

/// What [`Field::try_from_field_line`] yields for a parsed field line.
pub open spec fn spec_field_from_line(
    cv: Seq<(Seq<char>, crate::data_type::MsgTypeV)>,
    ft: Seq<char>,
    name: Seq<char>,
    ns: Seq<char>,
) -> Result<FieldV, RosError> {
    match spec_try_from_string(cv, ft, ns) {
        Ok(dt) => Ok(FieldV { field_name: name, field_type: dt }),
        Err(e) => Err(e),
    }
}

impl Field {
    /// Builds a field from a parsed field line, resolving its declared
    /// type through the cache.
    pub fn try_from_field_line(
        msg_def_cache: &MsgDefCache,
        value: &FieldLine,
        namespace: &str,
    ) -> (r: Result<Field, RosError>)
        ensures
            match r {
                Ok(f) => spec_field_from_line(
                    msg_def_cache@,
                    value.field_type@,
                    value.field_name@,
                    namespace@,
                ) == Ok::<FieldV, RosError>(f@) && (cache_wf(msg_def_cache@) ==> dt_wf(
                    f@.field_type,
                )),
                Err(e) => spec_field_from_line(
                    msg_def_cache@,
                    value.field_type@,
                    value.field_name@,
                    namespace@,
                ) == Err::<FieldV, RosError>(e),
            },
    {
        match DataType::try_from_string(msg_def_cache, value.field_type.as_str(), namespace) {
            Ok(field_type) => Ok(Field { field_name: value.field_name.clone(), field_type }),
            Err(e) => Err(e),
        }
    }
    /// Fixed byte width of the field, where its type is fixed-size.
    pub fn known_size(&self) -> (r: Option<usize>)
        ensures
            crate::data_type::dt_wf(self@.field_type) ==> r == crate::data_type::spec_dt_size(
                self@.field_type,
            ),
    {
        self.field_type.known_size()
    }

    /// Duplicates the field, preserving its view.
    pub fn duplicate(&self) -> (r: Field)
        ensures
            r@ == self@,
        decreases *self,
    {
        Field { field_name: self.field_name.clone(), field_type: self.field_type.duplicate() }
    }
}

} // verus!
