//! The chunk decoder: reads one chunk record, decompresses its payload,
//! and extracts the time-filtered, schema-decoded messages.
use vstd::prelude::*;

use crate::data_type::MsgTypeV;
use crate::decode::{decode_msg, spec_decode_msg};
use crate::error::RosError;
use crate::foreign::{bz2_decompress, bzip2_decoded, lz4_block_decoded, lz4_decompress};
use crate::msg::MsgType;
use crate::msg_value::{MsgValue, MsgValueV};
use crate::records::{
    read_record_at, spec_iterate_records, spec_read_record_at, Compression, Record, RecordV,
};

verus! {

// ---------------------------------------------------------------------------
// Decompression
// ---------------------------------------------------------------------------

/// The decompressed chunk content: `none` data is the content itself;
/// `bz2` and `lz4` data runs through the decompressor. The result must
/// be exactly `size` bytes.
pub open spec fn spec_chunk_payload(comp: Compression, data: Seq<u8>, size: u32) -> Result<
    Seq<u8>,
    RosError,
> {
    let decompressed = match comp {
        Compression::Uncompressed => Ok(data),
        Compression::Lz4 => match lz4_block_decoded(data, size as int) {
            Some(d) => Ok(d),
            None => Err(RosError::InvalidData),
        },
        Compression::Bz2 => match bzip2_decoded(data) {
            Some(d) => Ok(d),
            None => Err(RosError::InvalidData),
        },
    };
    match decompressed {
        Err(e) => Err(e),
        Ok(d) => if d.len() == size {
            Ok(d)
        } else {
            Err(RosError::InvalidData)
        },
    }
}

/// Decompresses a chunk's data bytes to exactly `size` bytes.
pub fn chunk_payload(comp: Compression, data: Vec<u8>, size: u32) -> (r: Result<Vec<u8>, RosError>)
    ensures
        match r {
            Ok(d) => spec_chunk_payload(comp, data@, size) == Ok::<Seq<u8>, RosError>(d@),
            Err(e) => spec_chunk_payload(comp, data@, size) == Err::<Seq<u8>, RosError>(e),
        },
{
    let decompressed = match comp {
        Compression::Uncompressed => data,
        Compression::Lz4 => match lz4_decompress(data.as_slice(), size as usize) {
            Ok(d) => d,
            Err(e) => {
                return Err(e);
            },
        },
        Compression::Bz2 => match bz2_decompress(data.as_slice()) {
            Ok(d) => d,
            Err(e) => {
                return Err(e);
            },
        },
    };
    if decompressed.len() == size as usize {
        Ok(decompressed)
    } else {
        Err(RosError::InvalidData)
    }
}

// ---------------------------------------------------------------------------
// The schema table
// ---------------------------------------------------------------------------

/// The schema bound to a connection id, if any.
pub open spec fn spec_ctm_get(s: Seq<(u32, MsgTypeV)>, conn: u32) -> Option<MsgTypeV>
    decreases s.len(),
{
    if s.len() == 0 {
        None
    } else if s[0].0 == conn {
        Some(s[0].1)
    } else {
        spec_ctm_get(s.drop_first(), conn)
    }
}

/// Looks up the schema of a connection id.
pub fn ctm_get<'a>(s: &'a Vec<(u32, MsgType)>, conn: u32) -> (r: Option<&'a MsgType>)
    ensures
        match r {
            Some(m) => spec_ctm_get(s.deep_view(), conn) == Some(m@),
            None => spec_ctm_get(s.deep_view(), conn) is None,
        },
{
    let n = s.len();
    let mut i: usize = 0;
    assert(s.deep_view().skip(0) =~= s.deep_view());
    while i < n
        invariant
            0 <= i <= n,
            n == s@.len(),
            spec_ctm_get(s.deep_view(), conn) == spec_ctm_get(s.deep_view().skip(i as int), conn),
        decreases n - i,
    {
        assert(s.deep_view().skip(i as int)[0] == s.deep_view()[i as int]);
        assert(s.deep_view()[i as int] == s@[i as int].deep_view());
        if s[i].0 == conn {
            return Some(&s[i].1);
        }
        assert(s.deep_view().skip(i as int).drop_first() =~= s.deep_view().skip(i as int + 1));
        i = i + 1;
    }
    assert(s.deep_view().skip(n as int) =~= Seq::<(u32, MsgTypeV)>::empty());
    None
}

// ---------------------------------------------------------------------------
// Walking the inner records
// ---------------------------------------------------------------------------

/// The messages of the decompressed chunk content, in on-disk order:
/// inner `Connection` records are ignored; a `MessageData` record is
/// kept when its time lies in `[start, end]` and its connection has a
/// schema, and is then decoded against that schema; any other record
/// kind is an error.
pub open spec fn spec_chunk_messages(
    inner: Seq<(RecordV, Seq<u8>)>,
    schemas: Seq<(u32, MsgTypeV)>,
    start: u64,
    end: u64,
) -> Result<Seq<(u64, u32, MsgValueV)>, RosError>
    decreases inner.len(),
{
    if inner.len() == 0 {
        Ok(Seq::empty())
    } else {
        match spec_chunk_messages(inner.drop_last(), schemas, start, end) {
            Err(e) => Err(e),
            Ok(acc) => match inner.last().0 {
                RecordV::Connection(_) => Ok(acc),
                RecordV::MessageData(md) => if start <= md.time && md.time <= end
                    && spec_ctm_get(schemas, md.conn) is Some {
                    match spec_decode_msg(
                        spec_ctm_get(schemas, md.conn)->Some_0,
                        inner.last().1,
                        0,
                    ) {
                        None => Err(RosError::InvalidData),
                        Some((_, mv)) => Ok(acc.push((md.time, md.conn, mv))),
                    }
                } else {
                    Ok(acc)
                },
                _ => Err(RosError::InvalidRecord),
            },
        }
    }
}

proof fn lemma_chunk_messages_err_prefix(
    inner: Seq<(RecordV, Seq<u8>)>,
    schemas: Seq<(u32, MsgTypeV)>,
    start: u64,
    end: u64,
    k: int,
)
    requires
        0 <= k <= inner.len(),
        spec_chunk_messages(inner.take(k), schemas, start, end) is Err,
    ensures
        spec_chunk_messages(inner, schemas, start, end) == spec_chunk_messages(
            inner.take(k),
            schemas,
            start,
            end,
        ),
    decreases inner.len() - k,
{
    if k == inner.len() {
        assert(inner.take(k) =~= inner);
    } else {
        assert(inner.take(k + 1).drop_last() =~= inner.take(k));
        lemma_chunk_messages_err_prefix(inner, schemas, start, end, k + 1);
    }
}

/// What decoding one chunk yields: the chunk record read at
/// `chunk_pos`, its payload decompressed, and the inner records walked.
pub open spec fn spec_decode_chunk(
    bag: Seq<u8>,
    pos: int,
    schemas: Seq<(u32, MsgTypeV)>,
    start: u64,
    end: u64,
) -> Result<Seq<(u64, u32, MsgValueV)>, RosError> {
    match spec_read_record_at(bag, pos) {
        Err(e) => Err(e),
        Ok((rv, data, _)) => match rv {
            RecordV::Chunk(ch) => match spec_chunk_payload(ch.compression, data, ch.size) {
                Err(e) => Err(e),
                Ok(payload) => match spec_iterate_records(payload, 0) {
                    Err(e) => Err(e),
                    Ok(inner) => spec_chunk_messages(inner, schemas, start, end),
                },
            },
            _ => Err(RosError::InvalidRecord),
        },
    }
}

/// Reads the chunk record at `chunk_pos`, decompresses its payload, and
/// decodes the messages within `[start, end]` whose connection has a
/// schema, in on-disk order.
#[verifier::rlimit(60)]
pub fn decode_chunk(
    bag: &[u8],
    chunk_pos: usize,
    schemas: &Vec<(u32, MsgType)>,
    start: u64,
    end: u64,
) -> (r: Result<Vec<(u64, u32, MsgValue)>, RosError>)
    requires
        chunk_pos <= bag@.len(),
    ensures
        match r {
            Ok(v) => spec_decode_chunk(bag@, chunk_pos as int, schemas.deep_view(), start, end)
                == Ok::<Seq<(u64, u32, MsgValueV)>, RosError>(v.deep_view()),
            Err(e) => spec_decode_chunk(bag@, chunk_pos as int, schemas.deep_view(), start, end)
                == Err::<Seq<(u64, u32, MsgValueV)>, RosError>(e),
        },
{
    let (record, data, _) = match read_record_at(bag, chunk_pos) {
        Err(e) => {
            return Err(e);
        },
        Ok(t) => t,
    };
    let ch = match record {
        Record::Chunk(ch) => ch,
        _ => {
            return Err(RosError::InvalidRecord);
        },
    };
    let payload = match chunk_payload(ch.compression, data, ch.size) {
        Err(e) => {
            return Err(e);
        },
        Ok(p) => p,
    };
    let inner = match crate::records::iterate_records(payload.as_slice(), 0) {
        Err(e) => {
            return Err(e);
        },
        Ok(rs) => rs,
    };
    let ghost iv = inner.deep_view();
    let ghost sv = schemas.deep_view();
    let n = inner.len();
    let mut out: Vec<(u64, u32, MsgValue)> = Vec::new();
    let mut i: usize = 0;
    assert(iv.take(0) =~= Seq::<(RecordV, Seq<u8>)>::empty());
    assert(out.deep_view() =~= Seq::<(u64, u32, MsgValueV)>::empty());
    while i < n
        invariant
            0 <= i <= n,
            n == inner@.len(),
            iv == inner.deep_view(),
            sv == schemas.deep_view(),
            spec_decode_chunk(bag@, chunk_pos as int, sv, start, end) == spec_chunk_messages(
                iv,
                sv,
                start,
                end,
            ),
            spec_chunk_messages(iv.take(i as int), sv, start, end) == Ok::<
                Seq<(u64, u32, MsgValueV)>,
                RosError,
            >(out.deep_view()),
        decreases n - i,
    {
        proof {
            assert(iv.take(i as int + 1).drop_last() =~= iv.take(i as int));
            assert(iv.take(i as int + 1).last() == iv[i as int]);
            assert(iv[i as int] == inner@[i as int].deep_view());
            assert(iv[i as int].1 =~= inner@[i as int].1@);
            assert(iv[i as int].0 == inner@[i as int].0@);
        }
        let ghost goal = spec_chunk_messages(iv.take(i as int + 1), sv, start, end);
        match &inner[i].0 {
            Record::Connection(_) => {
                assert(goal == Ok::<Seq<(u64, u32, MsgValueV)>, RosError>(out.deep_view()));
            },
            Record::MessageData(md) => {
                let keep = start <= md.time && md.time <= end;
                if keep {
                    match ctm_get(schemas, md.conn) {
                        None => {
                            assert(goal == Ok::<Seq<(u64, u32, MsgValueV)>, RosError>(
                                out.deep_view(),
                            ));
                        },
                        Some(m) => {
                            match decode_msg(m, inner[i].1.as_slice(), 0) {
                                Err(e) => {
                                    proof {
                                        lemma_chunk_messages_err_prefix(
                                            iv,
                                            sv,
                                            start,
                                            end,
                                            i as int + 1,
                                        );
                                    }
                                    return Err(e);
                                },
                                Ok((_, mv)) => {
                                    let ghost item = (md.time, md.conn, mv@);
                                    let entry = (md.time, md.conn, mv);
                                    assert(entry.deep_view() == item);
                                    let ghost pre = out.deep_view();
                                    out.push(entry);
                                    assert(out.deep_view() =~= pre.push(item));
                                    assert(goal == Ok::<Seq<(u64, u32, MsgValueV)>, RosError>(
                                        out.deep_view(),
                                    ));
                                },
                            }
                        },
                    }
                } else {
                    assert(goal == Ok::<Seq<(u64, u32, MsgValueV)>, RosError>(out.deep_view()));
                }
            },
            _ => {
                proof {
                    lemma_chunk_messages_err_prefix(iv, sv, start, end, i as int + 1);
                }
                return Err(RosError::InvalidRecord);
            },
        }
        i = i + 1;
    }
    assert(iv.take(n as int) =~= iv);
    Ok(out)
}

// ---------------------------------------------------------------------------
// Ordering within a chunk
// ---------------------------------------------------------------------------

/// The inner `MessageData` records appear in non-decreasing time order.
pub open spec fn spec_inner_times_sorted(inner: Seq<(RecordV, Seq<u8>)>) -> bool {
    forall|i: int, j: int|
        0 <= i <= j < inner.len() ==> match ((#[trigger] inner[i]).0, (#[trigger] inner[j]).0) {
            (RecordV::MessageData(a), RecordV::MessageData(b)) => a.time <= b.time,
            _ => true,
        }
}

/// Messages decoded from a chunk whose records are in time order come
/// out in non-decreasing time order: filtering and decoding preserve
/// the on-disk order. (That chunk records are time-ordered is a
/// guarantee of the bag format, not of this library.)
pub proof fn lemma_chunk_messages_time_sorted(
    inner: Seq<(RecordV, Seq<u8>)>,
    schemas: Seq<(u32, MsgTypeV)>,
    start: u64,
    end: u64,
)
    requires
        spec_inner_times_sorted(inner),
    ensures
        match spec_chunk_messages(inner, schemas, start, end) {
            Ok(msgs) => (forall|i: int, j: int|
                0 <= i <= j < msgs.len() ==> (#[trigger] msgs[i]).0 <= (#[trigger] msgs[j]).0)
                && (forall|k: int|
                0 <= k < msgs.len() ==> exists|r: int|
                    0 <= r < inner.len() && ((#[trigger] inner[r]).0 matches RecordV::MessageData(
                        md,
                    ) && md.time == (#[trigger] msgs[k]).0)),
            Err(_) => true,
        },
    decreases inner.len(),
{
    if inner.len() > 0 {
        assert(spec_inner_times_sorted(inner.drop_last())) by {
            assert(forall|i: int|
                0 <= i < inner.drop_last().len() ==> inner.drop_last()[i] == inner[i]);
        }
        lemma_chunk_messages_time_sorted(inner.drop_last(), schemas, start, end);
        match spec_chunk_messages(inner, schemas, start, end) {
            Ok(msgs) => {
                let acc = spec_chunk_messages(inner.drop_last(), schemas, start, end)->Ok_0;
                assert(forall|i: int|
                    0 <= i < inner.drop_last().len() ==> inner.drop_last()[i] == inner[i]);
                if msgs.len() > acc.len() {
                    // The last record contributed one message.
                    let md = inner.last().0->MessageData_0;
                    assert(msgs =~= acc.push((md.time, md.conn, msgs.last().2)));
                    assert forall|i: int, j: int|
                        0 <= i <= j < msgs.len() implies (#[trigger] msgs[i]).0 <= (
                    #[trigger] msgs[j]).0 by {
                        if j < acc.len() {
                            assert(msgs[i] == acc[i] && msgs[j] == acc[j]);
                        } else {
                            assert(msgs[j].0 == md.time);
                            if i < acc.len() {
                                assert(msgs[i] == acc[i]);
                                let r = choose|r: int|
                                    0 <= r < inner.drop_last().len() && ((#[trigger] inner.drop_last()[r]).0 matches RecordV::MessageData(
                                        m2,
                                    ) && m2.time == acc[i].0);
                                assert(inner[r] == inner.drop_last()[r]);
                                assert(inner.last() == inner[inner.len() - 1]);
                            }
                        }
                    }
                    assert forall|k: int|
                        0 <= k < msgs.len() implies exists|r: int|
                        0 <= r < inner.len() && ((#[trigger] inner[r]).0 matches RecordV::MessageData(
                            m2,
                        ) && m2.time == (#[trigger] msgs[k]).0) by {
                        if k < acc.len() {
                            assert(msgs[k] == acc[k]);
                            let r = choose|r: int|
                                0 <= r < inner.drop_last().len() && ((#[trigger] inner.drop_last()[r]).0 matches RecordV::MessageData(
                                    m2,
                                ) && m2.time == acc[k].0);
                            assert(inner[r] == inner.drop_last()[r]);
                        } else {
                            let r = inner.len() - 1;
                            assert((inner[r].0 matches RecordV::MessageData(m2) && m2.time
                                == msgs[k].0));
                        }
                    }
                } else {
                    assert(msgs == acc);
                    assert forall|k: int|
                        0 <= k < msgs.len() implies exists|r: int|
                        0 <= r < inner.len() && ((#[trigger] inner[r]).0 matches RecordV::MessageData(
                            m2,
                        ) && m2.time == (#[trigger] msgs[k]).0) by {
                        let r = choose|r: int|
                            0 <= r < inner.drop_last().len() && ((#[trigger] inner.drop_last()[r]).0 matches RecordV::MessageData(
                                m2,
                            ) && m2.time == acc[k].0);
                        assert(inner[r] == inner.drop_last()[r]);
                    }
                }
            },
            Err(_) => {},
        }
    }
}

} // verus!
