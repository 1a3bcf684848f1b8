//! Trusted bindings to outside crates, and to the one std conversion that
//! vstd gives no specification for.
//!
//! Every function here is `external_body`: its contract is believed, not
//! verified. Each doc comment names the outside function relied on and
//! what is assumed of it, so a reader can hold the contract against that
//! crate's source.
use vstd::prelude::*;

use crate::error::RosError;

verus! {

/// The character sequence that `String::from_utf8_lossy` produces for a
/// given byte sequence. It depends on the bytes alone.
pub uninterp spec fn lossy_utf8(bytes: Seq<u8>) -> Seq<char>;

/// The characters a byte sequence turns into: exactly its UTF-8
/// decoding where it is valid, and whatever `from_utf8_lossy` produces
/// otherwise.
pub open spec fn spec_lossy_chars(bytes: Seq<u8>) -> Seq<char> {
    if vstd::utf8::valid_utf8(bytes) {
        vstd::utf8::decode_utf8(bytes)
    } else {
        lossy_utf8(bytes)
    }
}

/// Relies on `String::from_utf8_lossy`: the result is a function of the
/// input bytes alone, and std documents that valid UTF-8 input comes back
/// unchanged (invalid sequences become U+FFFD).
#[verifier::external_body]
pub fn bytes_to_string_lossy(b: &[u8]) -> (r: String)
    ensures
        r@ == lossy_utf8(b@),
        vstd::utf8::valid_utf8(b@) ==> r@ == vstd::utf8::decode_utf8(b@),
{
    String::from_utf8_lossy(b).into_owned()
}


/// Relies on `regex::Regex::new` and `Regex::is_match` with the anchored
/// pattern `^=+$` (no multi-line flag): a haystack matches exactly when
/// it consists of one or more `=` characters and nothing else. The
/// pattern is a valid constant, so compilation cannot fail.
#[verifier::external_body]
pub fn is_separator_line(line: &str) -> (r: bool)
    ensures
        r == (line@.len() > 0 && (forall|i: int| 0 <= i < line@.len() ==> line@[i] == '=')),
{
    match regex::Regex::new("^=+$") {
        Ok(re) => re.is_match(line),
        Err(_) => false,
    }
}

/// The bytes that `lz4_flex::block::decompress` produces for a given
/// input block and size hint, or `None` where it reports an error. The
/// result depends on the arguments alone.
pub uninterp spec fn lz4_block_decoded(input: Seq<u8>, size: int) -> Option<Seq<u8>>;

/// Relies on `lz4_flex::block::decompress` (safe-decode build): it
/// decompresses an LZ4 block into at most `size` bytes, deterministically
/// in `(input, size)`, and returns an error rather than panicking when
/// the input is malformed or needs more room.
#[verifier::external_body]
pub fn lz4_decompress(data: &[u8], size: usize) -> (r: Result<Vec<u8>, RosError>)
    ensures
        match r {
            Ok(v) => lz4_block_decoded(data@, size as int) == Some(v@),
            Err(e) => lz4_block_decoded(data@, size as int) is None && e
                == RosError::InvalidData,
        },
{
    match lz4_flex::block::decompress(data, size) {
        Ok(v) => Ok(v),
        Err(_) => Err(RosError::InvalidData),
    }
}

/// The bytes that a `bzip2_rs::DecoderReader` over a given input yields
/// via `read_to_end`, or `None` where decoding fails. The result depends
/// on the input bytes alone.
pub uninterp spec fn bzip2_decoded(input: Seq<u8>) -> Option<Seq<u8>>;

/// Relies on `bzip2_rs::DecoderReader::new` and `std::io::Read::read_to_end`
/// over an in-memory slice: reading the slice never fails, so an error
/// reports a malformed bzip2 stream; the output is a function of the
/// input bytes alone.
#[verifier::external_body]
pub fn bz2_decompress(data: &[u8]) -> (r: Result<Vec<u8>, RosError>)
    ensures
        match r {
            Ok(v) => bzip2_decoded(data@) == Some(v@),
            Err(e) => bzip2_decoded(data@) is None && e == RosError::InvalidData,
        },
{
    let mut out: Vec<u8> = Vec::new();
    let mut dec = bzip2_rs::DecoderReader::new(data);
    match std::io::Read::read_to_end(&mut dec, &mut out) {
        Ok(_) => Ok(out),
        Err(_) => Err(RosError::InvalidData),
    }
}

} // verus!
