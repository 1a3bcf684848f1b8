//! Random-access reader for ROSBag v2.0 files.
//!
//! A bag is a binary log of time-stamped messages on named topics. This
//! crate parses the tail index of a bag, compiles the embedded ROS message
//! definitions into typed schemas, and decodes chunked little-endian
//! payloads into typed values, with optional topic and time-window filters.
use vstd::prelude::*;

pub mod bag;
pub mod chunk_decode;
pub mod const_field;
pub mod data_type;
pub mod decode;
pub mod encode;
pub mod error;
pub mod field;
pub mod foreign;
pub mod meta;
pub mod msg;
pub mod msg_value;
pub mod parse_msg;
pub mod records;
pub mod reorder;
pub mod strutil;
pub mod wire;

verus! {

/// Number of bytes in the leading version string `#ROSBAG V2.0\n`.
pub const VERSION_LEN: usize = 13;

} // verus!
