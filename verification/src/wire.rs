//! Little-endian primitive readers and writers over byte buffers.
//!
//! All numeric layouts in a bag are little-endian and unaligned; ROS
//! timestamps are two `u32`s (seconds, nanoseconds) combined as
//! `sec * 10^9 + ns` into a `u64`.
use vstd::prelude::*;

verus! {

/// Nanoseconds per second, the scale of ROS timestamps.
pub const NS_PER_SEC: u64 = 1_000_000_000;

// ---------------------------------------------------------------------------
// Specification-level readers
// ---------------------------------------------------------------------------

pub open spec fn spec_u16_of(b0: u8, b1: u8) -> u16 {
    (b0 as u16) | ((b1 as u16) << 8)
}

pub open spec fn spec_u32_of(b0: u8, b1: u8, b2: u8, b3: u8) -> u32 {
    (b0 as u32) | ((b1 as u32) << 8) | ((b2 as u32) << 16) | ((b3 as u32) << 24)
}

pub open spec fn spec_u64_of(lo: u32, hi: u32) -> u64 {
    (lo as u64) | ((hi as u64) << 32)
}

/// The `u16` stored little-endian at `pos`.
pub open spec fn spec_u16_at(b: Seq<u8>, pos: int) -> u16
    recommends
        0 <= pos,
        pos + 2 <= b.len(),
{
    spec_u16_of(b[pos], b[pos + 1])
}

/// The `u32` stored little-endian at `pos`.
pub open spec fn spec_u32_at(b: Seq<u8>, pos: int) -> u32
    recommends
        0 <= pos,
        pos + 4 <= b.len(),
{
    spec_u32_of(b[pos], b[pos + 1], b[pos + 2], b[pos + 3])
}

/// The `u64` stored little-endian at `pos`.
pub open spec fn spec_u64_at(b: Seq<u8>, pos: int) -> u64
    recommends
        0 <= pos,
        pos + 8 <= b.len(),
{
    spec_u64_of(spec_u32_at(b, pos), spec_u32_at(b, pos + 4))
}

/// The ROS time stored at `pos`: seconds then nanoseconds, each a
/// little-endian `u32`, combined into nanoseconds since the epoch.
pub open spec fn spec_time_of(sec: u32, ns: u32) -> u64 {
    ((sec as u64) * (NS_PER_SEC as u64) + (ns as u64)) as u64
}

/// The ROS time stored at `pos` (see [`spec_time_of`]).
pub open spec fn spec_time_at(b: Seq<u8>, pos: int) -> u64
    recommends
        0 <= pos,
        pos + 8 <= b.len(),
{
    spec_time_of(spec_u32_at(b, pos), spec_u32_at(b, pos + 4))
}

// ---------------------------------------------------------------------------
// Specification-level writers
// ---------------------------------------------------------------------------

pub open spec fn spec_u16_bytes(x: u16) -> Seq<u8> {
    seq![x as u8, (x >> 8) as u8]
}

pub open spec fn spec_u32_bytes(x: u32) -> Seq<u8> {
    seq![x as u8, (x >> 8) as u8, (x >> 16) as u8, (x >> 24) as u8]
}

pub open spec fn spec_u64_bytes(x: u64) -> Seq<u8> {
    spec_u32_bytes(x as u32) + spec_u32_bytes((x >> 32) as u32)
}

/// The eight bytes of a ROS time `t`: seconds `t / 10^9`, then
/// nanoseconds `t % 10^9`, each little-endian.
pub open spec fn spec_time_bytes(t: u64) -> Seq<u8>
    recommends
        t / (NS_PER_SEC as u64) <= u32::MAX,
{
    spec_u32_bytes((t / (NS_PER_SEC as u64)) as u32) + spec_u32_bytes(
        (t % (NS_PER_SEC as u64)) as u32,
    )
}

// ---------------------------------------------------------------------------
// Round-trip lemmas
// ---------------------------------------------------------------------------

pub proof fn lemma_u16_roundtrip(x: u16)
    ensures
        spec_u16_of(x as u8, (x >> 8) as u8) == x,
{
    assert(((x as u8) as u16) | ((((x >> 8) as u8) as u16) << 8) == x) by (bit_vector);
}

pub proof fn lemma_u32_roundtrip(x: u32)
    ensures
        spec_u32_of(x as u8, (x >> 8) as u8, (x >> 16) as u8, (x >> 24) as u8) == x,
{
    assert(((x as u8) as u32) | ((((x >> 8) as u8) as u32) << 8) | ((((x >> 16) as u8) as u32)
        << 16) | ((((x >> 24) as u8) as u32) << 24) == x) by (bit_vector);
}

pub proof fn lemma_u64_roundtrip(x: u64)
    ensures
        spec_u64_of(x as u32, (x >> 32) as u32) == x,
{
    assert((((x as u32) as u64) | ((((x >> 32) as u32) as u64) << 32)) == x) by (bit_vector);
}

/// Reading back the two words written for a ROS time below `2^32` seconds
/// yields the original timestamp.
pub proof fn lemma_time_roundtrip(t: u64)
    requires
        t / (NS_PER_SEC as u64) <= u32::MAX,
    ensures
        spec_time_of((t / (NS_PER_SEC as u64)) as u32, (t % (NS_PER_SEC as u64)) as u32) == t,
{
    let n = NS_PER_SEC as u64;
    vstd::arithmetic::div_mod::lemma_fundamental_div_mod(t as int, n as int);
    assert(t % n < n) by {
        vstd::arithmetic::div_mod::lemma_mod_bound(t as int, n as int);
    }
}

// ---------------------------------------------------------------------------
// Executable readers
// ---------------------------------------------------------------------------

pub fn read_u16_le(b: &[u8], pos: usize) -> (r: u16)
    requires
        pos + 2 <= b@.len(),
    ensures
        r == spec_u16_at(b@, pos as int),
{
    let b0 = b[pos];
    let b1 = b[pos + 1];
    (b0 as u16) | ((b1 as u16) << 8u16)
}

pub fn read_u32_le(b: &[u8], pos: usize) -> (r: u32)
    requires
        pos + 4 <= b@.len(),
    ensures
        r == spec_u32_at(b@, pos as int),
{
    let b0 = b[pos];
    let b1 = b[pos + 1];
    let b2 = b[pos + 2];
    let b3 = b[pos + 3];
    (b0 as u32) | ((b1 as u32) << 8u32) | ((b2 as u32) << 16u32) | ((b3 as u32) << 24u32)
}

pub fn read_u64_le(b: &[u8], pos: usize) -> (r: u64)
    requires
        pos + 8 <= b@.len(),
    ensures
        r == spec_u64_at(b@, pos as int),
{
    let n = b.len();
    assert(pos + 8 <= n);
    let lo = read_u32_le(b, pos);
    let hi = read_u32_le(b, pos + 4);
    (lo as u64) | ((hi as u64) << 32u64)
}

/// Reads a ROS time: seconds and nanoseconds as two little-endian `u32`s,
/// combined as `sec * 10^9 + ns`.
pub fn read_time_le(b: &[u8], pos: usize) -> (r: u64)
    requires
        pos + 8 <= b@.len(),
    ensures
        r == spec_time_at(b@, pos as int),
{
    let n = b.len();
    assert(pos + 8 <= n);
    let sec = read_u32_le(b, pos);
    let ns = read_u32_le(b, pos + 4);
    (sec as u64) * NS_PER_SEC + (ns as u64)
}

// ---------------------------------------------------------------------------
// Executable writers
// ---------------------------------------------------------------------------

pub fn push_u16_le(out: &mut Vec<u8>, x: u16)
    ensures
        final(out)@ == old(out)@ + spec_u16_bytes(x),
{
    out.push(x as u8);
    out.push((x >> 8u16) as u8);
    assert(final(out)@ =~= old(out)@ + spec_u16_bytes(x));
}

pub fn push_u32_le(out: &mut Vec<u8>, x: u32)
    ensures
        final(out)@ == old(out)@ + spec_u32_bytes(x),
{
    out.push(x as u8);
    out.push((x >> 8u32) as u8);
    out.push((x >> 16u32) as u8);
    out.push((x >> 24u32) as u8);
    assert(final(out)@ =~= old(out)@ + spec_u32_bytes(x));
}

pub fn push_u64_le(out: &mut Vec<u8>, x: u64)
    ensures
        final(out)@ == old(out)@ + spec_u64_bytes(x),
{
    push_u32_le(out, x as u32);
    push_u32_le(out, (x >> 32u64) as u32);
    assert(final(out)@ =~= old(out)@ + spec_u64_bytes(x));
}

/// Writes a ROS time as its two little-endian words. The seconds part
/// must fit in a `u32`.
pub fn push_time_le(out: &mut Vec<u8>, t: u64)
    requires
        t / (NS_PER_SEC as u64) <= u32::MAX,
    ensures
        final(out)@ == old(out)@ + spec_time_bytes(t),
{
    push_u32_le(out, (t / NS_PER_SEC) as u32);
    push_u32_le(out, (t % NS_PER_SEC) as u32);
    assert(final(out)@ =~= old(out)@ + spec_time_bytes(t));
}

// ---------------------------------------------------------------------------
// Byte-range helpers
// ---------------------------------------------------------------------------

/// Copies `b[start..end]` into a fresh vector.
pub fn bytes_range(b: &[u8], start: usize, end: usize) -> (r: Vec<u8>)
    requires
        start <= end,
        end <= b@.len(),
    ensures
        r@ == b@.subrange(start as int, end as int),
{
    let mut out: Vec<u8> = Vec::new();
    let mut i: usize = start;
    while i < end
        invariant
            start <= i <= end,
            end <= b@.len(),
            out@ == b@.subrange(start as int, i as int),
        decreases end - i,
    {
        out.push(b[i]);
        i = i + 1;
        assert(out@ =~= b@.subrange(start as int, i as int));
    }
    out
}

/// Compares two byte slices for equality.
pub fn bytes_eq(a: &[u8], b: &[u8]) -> (r: bool)
    ensures
        r == (a@ == b@),
{
    if a.len() != b.len() {
        assert(a@ != b@);
        return false;
    }
    let n = a.len();
    let mut i: usize = 0;
    while i < n
        invariant
            0 <= i <= n,
            n == a@.len(),
            n == b@.len(),
            forall|j: int| 0 <= j < i ==> a@[j] == b@[j],
        decreases n - i,
    {
        if a[i] != b[i] {
            assert(a@ != b@);
            return false;
        }
        i = i + 1;
    }
    assert(a@ =~= b@);
    true
}

} // verus!
