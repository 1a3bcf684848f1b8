//! Error kinds for bag parsing and decoding.
use vstd::prelude::*;

verus! {

/// Everything that can go wrong while reading a bag.
#[derive(Clone, Copy, Debug, PartialEq, Eq, Structural)]
pub enum RosError {
    /// The leading bytes are not `#ROSBAG V2.0\n`.
    InvalidVersion,
    /// A required header field is missing, has the wrong length, or holds
    /// an unknown enumeration value.
    InvalidHeader,
    /// A record appears in a context that disallows it, or its payload
    /// shape violates the record contract.
    InvalidRecord,
    /// A range read past the end of the blob.
    OutOfBounds,
    /// A schema references a type name that cannot be resolved.
    UnknownType,
    /// A schema holds a malformed type name.
    InvalidType,
    /// A payload failed to decode.
    InvalidData,
    /// Propagated from a byte-range backend.
    BackendError,
}

impl RosError {
    /// A short human-readable name of the error kind.
    pub fn describe(&self) -> (r: &'static str)
        ensures
            r@.len() > 0,
    {
        proof {
            reveal_strlit("invalid version");
            reveal_strlit("invalid header");
            reveal_strlit("invalid record");
            reveal_strlit("out of bounds");
            reveal_strlit("unknown type");
            reveal_strlit("invalid type");
            reveal_strlit("invalid data");
            reveal_strlit("backend error");
        }
        match self {
            RosError::InvalidVersion => "invalid version",
            RosError::InvalidHeader => "invalid header",
            RosError::InvalidRecord => "invalid record",
            RosError::OutOfBounds => "out of bounds",
            RosError::UnknownType => "unknown type",
            RosError::InvalidType => "invalid type",
            RosError::InvalidData => "invalid data",
            RosError::BackendError => "backend error",
        }
    }
}

} // verus!
