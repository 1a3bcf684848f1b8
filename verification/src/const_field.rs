//! Constant entries of a message definition.
use vstd::prelude::*;

use crate::data_type::{spec_prim_size, ConstFieldV, PrimitiveDataType};
use crate::error::RosError;
use crate::parse_msg::ConstLine;

verus! {

/// A named constant of a message definition. Its literal value is kept
/// verbatim as text; constants occupy no bytes in a payload.
#[derive(Clone, Debug)]
pub struct ConstField {
    /// The primitive type of the constant.
    pub const_type: PrimitiveDataType,
    /// The constant's name.
    pub const_name: String,
    /// The literal, stored verbatim.
    pub const_value: String,
}

/// What [`ConstField::try_from`] yields for a parsed constant line:
/// constants exist only for primitive types.
pub open spec fn spec_const_field(ct: Seq<char>, name: Seq<char>, value: Seq<char>) -> Result<
    ConstFieldV,
    RosError,
> {
    match PrimitiveDataType::spec_of_name(ct) {
        Some(p) => Ok(ConstFieldV { const_type: p, const_name: name, const_value: value }),
        None => Err(RosError::UnknownType),
    }
}

impl ConstField {
    /// Builds a constant from a parsed constant line; the declared type
    /// must name a primitive.
    pub fn try_from(value: &ConstLine) -> (r: Result<ConstField, RosError>)
        ensures
            match r {
                Ok(c) => spec_const_field(value.const_type@, value.const_name@, value.const_value@)
                    == Ok::<ConstFieldV, RosError>(c@),
                Err(e) => spec_const_field(
                    value.const_type@,
                    value.const_name@,
                    value.const_value@,
                ) == Err::<ConstFieldV, RosError>(e),
            },
    {
        match PrimitiveDataType::try_from_str(value.const_type.as_str()) {
            Ok(p) => Ok(
                ConstField {
                    const_type: p,
                    const_name: value.const_name.clone(),
                    const_value: value.const_value.clone(),
                },
            ),
            Err(e) => Err(e),
        }
    }

    /// Fixed byte width of the constant's type; constants contribute no
    /// bytes to a payload.
    pub fn known_size(&self) -> (r: Option<usize>)
        ensures
            r == spec_prim_size(self.const_type),
    {
        self.const_type.known_size()
    }

    /// Duplicates the constant, preserving its view.
    pub fn duplicate(&self) -> (r: ConstField)
        ensures
            r@ == self@,
    {
        ConstField {
            const_type: self.const_type,
            const_name: self.const_name.clone(),
            const_value: self.const_value.clone(),
        }
    }
}

} // verus!
