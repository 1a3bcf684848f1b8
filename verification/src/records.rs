//! The record framer: length-prefixed `[header][data]` records and their
//! kind-specific constructors.
//!
//! A record is `u32 hlen | hlen header bytes | u32 dlen | dlen data
//! bytes`. A header is a sequence of `u32 flen | name=value` entries; the
//! required field `op` (one byte) identifies the record kind.
use vstd::prelude::*;

use crate::error::RosError;
use crate::foreign::spec_lossy_chars;
use crate::wire::{
    bytes_eq, bytes_range, read_time_le, read_u32_le, read_u64_le, spec_time_at, spec_u32_at,
    spec_u64_at,
};

verus! {

/// Record kind of a message payload.
pub const OP_MESSAGE_DATA: u8 = 0x02;

/// Record kind of the bag header.
pub const OP_BAG_HEADER: u8 = 0x03;

/// Record kind of an index-data record (ignored by the reading path).
pub const OP_INDEX_DATA: u8 = 0x04;

/// Record kind of a chunk.
pub const OP_CHUNK: u8 = 0x05;

/// Record kind of a chunk-info index entry.
pub const OP_CHUNK_INFO: u8 = 0x06;

/// Record kind of a connection.
pub const OP_CONNECTION: u8 = 0x07;

// ---------------------------------------------------------------------------
// ASCII names
// ---------------------------------------------------------------------------

/// The bytes of an ASCII string, one byte per character.
pub open spec fn ascii_of(s: &str) -> Seq<u8> {
    Seq::new(s@.len(), |i: int| s@[i] as u8)
}

/// The bytes of an ASCII string literal.
pub fn ascii_bytes(s: &str) -> (r: Vec<u8>)
    requires
        vstd::string::is_ascii(s),
    ensures
        r@ == ascii_of(s),
{
    broadcast use vstd::string::is_ascii_spec_bytes;

    let v = s.as_bytes_vec();
    assert(v@ =~= ascii_of(s));
    v
}

// ---------------------------------------------------------------------------
// Header field maps
// ---------------------------------------------------------------------------

/// First index at or after `from` where byte `b` occurs.
pub open spec fn spec_find_byte(s: Seq<u8>, b: u8, from: int) -> Option<int>
    decreases s.len() - from,
{
    if from < 0 || from >= s.len() {
        None
    } else if s[from] == b {
        Some(from)
    } else {
        spec_find_byte(s, b, from + 1)
    }
}

/// Splits one `name=value` entry at its first `=`.
pub open spec fn spec_split_entry(e: Seq<u8>) -> Option<(Seq<u8>, Seq<u8>)> {
    match spec_find_byte(e, '=' as u8, 0) {
        None => None,
        Some(i) => Some((e.subrange(0, i), e.subrange(i + 1, e.len() as int))),
    }
}

/// The `(name, value)` entries of the header bytes from `pos` onward, or
/// `None` where the framing is malformed.
pub open spec fn spec_parse_fields_from(h: Seq<u8>, pos: int) -> Option<
    Seq<(Seq<u8>, Seq<u8>)>,
>
    recommends
        0 <= pos <= h.len(),
    decreases h.len() - pos,
{
    if pos >= h.len() {
        Some(Seq::empty())
    } else if pos + 4 > h.len() {
        None
    } else {
        let flen = spec_u32_at(h, pos) as int;
        if pos + 4 + flen > h.len() {
            None
        } else {
            match spec_split_entry(h.subrange(pos + 4, pos + 4 + flen)) {
                None => None,
                Some(nv) => match spec_parse_fields_from(h, pos + 4 + flen) {
                    None => None,
                    Some(rest) => Some(seq![nv] + rest),
                },
            }
        }
    }
}

/// All `(name, value)` entries of a header.
pub open spec fn spec_parse_fields(h: Seq<u8>) -> Option<Seq<(Seq<u8>, Seq<u8>)>> {
    spec_parse_fields_from(h, 0)
}

/// Splits header bytes into their `(name, value)` entries.
pub fn parse_header_fields(h: &[u8]) -> (r: Option<Vec<(Vec<u8>, Vec<u8>)>>)
    ensures
        match r {
            Some(v) => spec_parse_fields(h@) == Some(v.deep_view()),
            None => spec_parse_fields(h@) is None,
        },
{
    parse_fields_from(h, 0)
}

fn parse_fields_from(h: &[u8], start: usize) -> (r: Option<Vec<(Vec<u8>, Vec<u8>)>>)
    requires
        start <= h@.len(),
    ensures
        match r {
            Some(v) => spec_parse_fields_from(h@, start as int) == Some(v.deep_view()),
            None => spec_parse_fields_from(h@, start as int) is None,
        },
{
    let n = h.len();
    let mut acc: Vec<(Vec<u8>, Vec<u8>)> = Vec::new();
    let mut pos: usize = start;
    assert(acc.deep_view() =~= Seq::<(Seq<u8>, Seq<u8>)>::empty());
    while pos < n
        invariant
            start <= pos <= n,
            n == h@.len(),
            spec_parse_fields_from(h@, start as int) == (match spec_parse_fields_from(
                h@,
                pos as int,
            ) {
                None => None::<Seq<(Seq<u8>, Seq<u8>)>>,
                Some(rest) => Some(acc.deep_view() + rest),
            }),
        decreases n - pos,
    {
        if n - pos < 4 {
            return None;
        }
        let flen = read_u32_le(h, pos) as usize;
        if flen > n - pos - 4 {
            return None;
        }
        let entry_start = pos + 4;
        let entry_end = pos + 4 + flen;
        let ghost entry = h@.subrange(entry_start as int, entry_end as int);
        match find_eq_in(h, entry_start, entry_end) {
            None => {
                assert(spec_split_entry(entry) is None);
                return None;
            },
            Some(i) => {
                assert(spec_find_byte(entry, '=' as u8, 0) == Some(i - entry_start));
                let name = bytes_range(h, entry_start, i);
                let value = bytes_range(h, i + 1, entry_end);
                assert(name@ =~= entry.subrange(0, i - entry_start));
                assert(value@ =~= entry.subrange(i - entry_start + 1, entry.len() as int));
                let ghost nv = (name@, value@);
                assert(spec_split_entry(entry) == Some(nv));
                let pair = (name, value);
                let ghost pre = acc.deep_view();
                assert(pair.deep_view().0 =~= nv.0);
                assert(pair.deep_view().1 =~= nv.1);
                assert(pair.deep_view() == nv);
                acc.push(pair);
                pos = entry_end;
                proof {
                    assert(acc.deep_view() =~= pre.push(nv));
                    if spec_parse_fields_from(h@, pos as int) is Some {
                        let rest = spec_parse_fields_from(h@, pos as int)->Some_0;
                        assert(pre + (seq![nv] + rest) =~= acc.deep_view() + rest);
                    }
                }
            },
        }
    }
    assert(spec_parse_fields_from(h@, pos as int) == Some(Seq::<(Seq<u8>, Seq<u8>)>::empty()));
    assert(acc.deep_view() + Seq::<(Seq<u8>, Seq<u8>)>::empty() =~= acc.deep_view());
    Some(acc)
}

/// Finds the absolute index of the first `=` in `h[start..end]`.
fn find_eq_in(h: &[u8], start: usize, end: usize) -> (r: Option<usize>)
    requires
        start <= end <= h@.len(),
    ensures
        ({
            let entry = h@.subrange(start as int, end as int);
            match r {
                Some(i) => start <= i < end && spec_find_byte(entry, '=' as u8, 0) == Some(
                    i - start,
                ),
                None => spec_find_byte(entry, '=' as u8, 0) is None,
            }
        }),
{
    let ghost entry = h@.subrange(start as int, end as int);
    let mut i: usize = start;
    while i < end
        invariant
            start <= i <= end,
            end <= h@.len(),
            entry == h@.subrange(start as int, end as int),
            spec_find_byte(entry, '=' as u8, 0) == spec_find_byte(entry, '=' as u8, i - start),
        decreases end - i,
    {
        if h[i] == '=' as u8 {
            assert(entry[i - start] == '=' as u8);
            return Some(i);
        }
        assert(entry[i - start] != '=' as u8);
        i = i + 1;
    }
    None
}

/// The value of the first entry named `name`.
pub open spec fn spec_get_field(fs: Seq<(Seq<u8>, Seq<u8>)>, name: Seq<u8>) -> Option<Seq<u8>>
    decreases fs.len(),
{
    if fs.len() == 0 {
        None
    } else if fs[0].0 == name {
        Some(fs[0].1)
    } else {
        spec_get_field(fs.drop_first(), name)
    }
}

/// Looks up the first entry named `name`.
pub fn get_field<'a>(fs: &'a Vec<(Vec<u8>, Vec<u8>)>, name: &[u8]) -> (r: Option<&'a Vec<u8>>)
    ensures
        match r {
            Some(v) => spec_get_field(fs.deep_view(), name@) == Some(v@),
            None => spec_get_field(fs.deep_view(), name@) is None,
        },
{
    let n = fs.len();
    let mut i: usize = 0;
    assert(fs.deep_view().skip(0) =~= fs.deep_view());
    while i < n
        invariant
            0 <= i <= n,
            n == fs@.len(),
            spec_get_field(fs.deep_view(), name@) == spec_get_field(
                fs.deep_view().skip(i as int),
                name@,
            ),
        decreases n - i,
    {
        assert(fs.deep_view().skip(i as int)[0] == fs.deep_view()[i as int]);
        assert(fs.deep_view()[i as int] == fs@[i as int].deep_view());
        assert(fs@[i as int].deep_view().0 =~= fs@[i as int].0@);
        assert(fs@[i as int].deep_view().1 =~= fs@[i as int].1@);
        if bytes_eq(fs[i].0.as_slice(), name) {
            return Some(&fs[i].1);
        }
        assert(fs.deep_view().skip(i as int).drop_first() =~= fs.deep_view().skip(i as int + 1));
        i = i + 1;
    }
    assert(fs.deep_view().skip(n as int) =~= Seq::<(Seq<u8>, Seq<u8>)>::empty());
    None
}

// ---------------------------------------------------------------------------
// Typed field accessors
// ---------------------------------------------------------------------------

/// A four-byte field read as a little-endian `u32`; `None` where the
/// field is missing or has the wrong length.
pub open spec fn spec_field_u32(fs: Seq<(Seq<u8>, Seq<u8>)>, name: Seq<u8>) -> Option<u32> {
    match spec_get_field(fs, name) {
        None => None,
        Some(v) => if v.len() == 4 {
            Some(spec_u32_at(v, 0))
        } else {
            None
        },
    }
}

/// An eight-byte field read as a little-endian `u64`.
pub open spec fn spec_field_u64(fs: Seq<(Seq<u8>, Seq<u8>)>, name: Seq<u8>) -> Option<u64> {
    match spec_get_field(fs, name) {
        None => None,
        Some(v) => if v.len() == 8 {
            Some(spec_u64_at(v, 0))
        } else {
            None
        },
    }
}

/// An eight-byte field read as a ROS time (`sec * 10^9 + ns`).
pub open spec fn spec_field_time(fs: Seq<(Seq<u8>, Seq<u8>)>, name: Seq<u8>) -> Option<u64> {
    match spec_get_field(fs, name) {
        None => None,
        Some(v) => if v.len() == 8 {
            Some(spec_time_at(v, 0))
        } else {
            None
        },
    }
}

fn field_u32(fs: &Vec<(Vec<u8>, Vec<u8>)>, name: &[u8]) -> (r: Option<u32>)
    ensures
        r == spec_field_u32(fs.deep_view(), name@),
{
    match get_field(fs, name) {
        None => None,
        Some(v) => {
            if v.len() == 4 {
                Some(read_u32_le(v.as_slice(), 0))
            } else {
                None
            }
        },
    }
}

fn field_u64(fs: &Vec<(Vec<u8>, Vec<u8>)>, name: &[u8]) -> (r: Option<u64>)
    ensures
        r == spec_field_u64(fs.deep_view(), name@),
{
    match get_field(fs, name) {
        None => None,
        Some(v) => {
            if v.len() == 8 {
                Some(read_u64_le(v.as_slice(), 0))
            } else {
                None
            }
        },
    }
}

fn field_time(fs: &Vec<(Vec<u8>, Vec<u8>)>, name: &[u8]) -> (r: Option<u64>)
    ensures
        r == spec_field_time(fs.deep_view(), name@),
{
    match get_field(fs, name) {
        None => None,
        Some(v) => {
            if v.len() == 8 {
                Some(read_time_le(v.as_slice(), 0))
            } else {
                None
            }
        },
    }
}

// ---------------------------------------------------------------------------
// Record kinds
// ---------------------------------------------------------------------------

/// The bag header record: where the tail index starts, and how many
/// connections and chunks the bag holds.
#[derive(Clone, Copy, Debug, PartialEq, Eq, Structural)]
pub struct BagHeader {
    /// Absolute offset of the tail index.
    pub index_pos: u64,
    /// Number of connection records.
    pub conn_count: u32,
    /// Number of chunk records.
    pub chunk_count: u32,
    /// Absolute offset of this record's data bytes.
    pub data_pos: usize,
}

/// How a chunk's data bytes are compressed.
#[derive(Clone, Copy, Debug, PartialEq, Eq, Structural)]
pub enum Compression {
    /// `none`: the data bytes are the chunk content itself.
    Uncompressed,
    /// `bz2`: a bzip2 stream.
    Bz2,
    /// `lz4`: an LZ4 block.
    Lz4,
}

/// A chunk record header: compression and decompressed size. The data
/// bytes are fetched lazily from `data_pos`.
#[derive(Clone, Copy, Debug, PartialEq, Eq, Structural)]
pub struct Chunk {
    /// Absolute offset of this record's data bytes.
    pub data_pos: usize,
    /// Compression of the data bytes.
    pub compression: Compression,
    /// Decompressed size in bytes.
    pub size: u32,
}

/// The key/value payload of a connection record: topic, type and the
/// embedded message definition text.
#[derive(Clone, Debug)]
pub struct ConnectionData {
    /// Topic name as recorded in the connection payload.
    pub topic: String,
    /// Fully qualified message type name (for example `std_msgs/Header`).
    pub message_type: String,
    /// MD5 checksum of the message definition.
    pub md5sum: String,
    /// Concatenated ROS message definition text.
    pub message_definition: String,
    /// Optional caller id of the publisher.
    pub caller_id: Option<String>,
    /// Whether the connection was latching (value `1`).
    pub latching: bool,
}

/// Specification view of [`ConnectionData`].
pub ghost struct ConnectionDataV {
    pub topic: Seq<char>,
    pub message_type: Seq<char>,
    pub md5sum: Seq<char>,
    pub message_definition: Seq<char>,
    pub caller_id: Option<Seq<char>>,
    pub latching: bool,
}

impl View for ConnectionData {
    type V = ConnectionDataV;

    open spec fn view(&self) -> ConnectionDataV {
        ConnectionDataV {
            topic: self.topic@,
            message_type: self.message_type@,
            md5sum: self.md5sum@,
            message_definition: self.message_definition@,
            caller_id: match self.caller_id {
                Some(ref s) => Some(s@),
                None => None,
            },
            latching: self.latching,
        }
    }
}

/// A connection record: a numeric id bound to a topic, with its payload
/// filled in while the tail index is parsed.
#[derive(Clone, Debug)]
pub struct Connection {
    /// Absolute offset of this record's data bytes.
    pub data_pos: usize,
    /// Connection id.
    pub conn: u32,
    /// Topic name from the record header.
    pub topic: String,
    /// Parsed data payload, absent until the index parser supplies it.
    pub data: Option<ConnectionData>,
}

/// Specification view of [`Connection`].
pub ghost struct ConnectionV {
    pub data_pos: usize,
    pub conn: u32,
    pub topic: Seq<char>,
    pub data: Option<ConnectionDataV>,
}

impl View for Connection {
    type V = ConnectionV;

    open spec fn view(&self) -> ConnectionV {
        ConnectionV {
            data_pos: self.data_pos,
            conn: self.conn,
            topic: self.topic@,
            data: match self.data {
                Some(ref d) => Some(d@),
                None => None,
            },
        }
    }
}

impl DeepView for Connection {
    type V = ConnectionV;

    open spec fn deep_view(&self) -> ConnectionV {
        self@
    }
}

impl ConnectionData {
    /// Duplicates the payload, preserving its view.
    pub fn duplicate(&self) -> (r: ConnectionData)
        ensures
            r@ == self@,
    {
        ConnectionData {
            topic: self.topic.clone(),
            message_type: self.message_type.clone(),
            md5sum: self.md5sum.clone(),
            message_definition: self.message_definition.clone(),
            caller_id: match &self.caller_id {
                Some(c) => Some(c.clone()),
                None => None,
            },
            latching: self.latching,
        }
    }
}

impl Connection {
    /// Duplicates the connection, preserving its view.
    pub fn duplicate(&self) -> (r: Connection)
        ensures
            r@ == self@,
    {
        Connection {
            data_pos: self.data_pos,
            conn: self.conn,
            topic: self.topic.clone(),
            data: match &self.data {
                Some(d) => Some(d.duplicate()),
                None => None,
            },
        }
    }
}

/// A message-data record header: connection id and timestamp. The
/// payload bytes follow as the record's data.
#[derive(Clone, Copy, Debug, PartialEq, Eq, Structural)]
pub struct MessageData {
    /// Absolute offset of this record's data bytes.
    pub data_pos: usize,
    /// Connection id the message was published on.
    pub conn: u32,
    /// Timestamp in nanoseconds.
    pub time: u64,
}

/// One `(connection, message count)` pair of a chunk-info record.
#[derive(Clone, Copy, Debug, PartialEq, Eq, Structural)]
pub struct ChunkInfoDataEntry {
    /// Connection id.
    pub conn: u32,
    /// Number of messages of that connection in the chunk.
    pub count: u32,
}

/// A chunk-info record: locates a chunk and summarises its time range
/// and per-connection message counts.
#[derive(Clone, Debug)]
pub struct ChunkInfo {
    /// Absolute offset of this record's data bytes.
    pub data_pos: usize,
    /// Chunk-info format version.
    pub ver: u32,
    /// Absolute offset of the chunk record this entry describes.
    pub chunk_pos: u32,
    /// Earliest message timestamp in the chunk.
    pub start_time: u64,
    /// Latest message timestamp in the chunk.
    pub end_time: u64,
    /// Total number of messages in the chunk.
    pub count: u32,
    /// Per-connection counts, absent until the index parser supplies them.
    pub entries: Vec<ChunkInfoDataEntry>,
}

/// Specification view of [`ChunkInfo`].
pub ghost struct ChunkInfoV {
    pub data_pos: usize,
    pub ver: u32,
    pub chunk_pos: u32,
    pub start_time: u64,
    pub end_time: u64,
    pub count: u32,
    pub entries: Seq<ChunkInfoDataEntry>,
}

impl View for ChunkInfo {
    type V = ChunkInfoV;

    open spec fn view(&self) -> ChunkInfoV {
        ChunkInfoV {
            data_pos: self.data_pos,
            ver: self.ver,
            chunk_pos: self.chunk_pos,
            start_time: self.start_time,
            end_time: self.end_time,
            count: self.count,
            entries: self.entries@,
        }
    }
}

impl DeepView for ChunkInfo {
    type V = ChunkInfoV;

    open spec fn deep_view(&self) -> ChunkInfoV {
        self@
    }
}

/// A parsed record header of any kind.
#[derive(Clone, Debug)]
pub enum Record {
    /// Bag header (`op` 0x03).
    BagHeader(BagHeader),
    /// Chunk (`op` 0x05).
    Chunk(Chunk),
    /// Connection (`op` 0x07).
    Connection(Connection),
    /// Message data (`op` 0x02).
    MessageData(MessageData),
    /// Index data (`op` 0x04); carried through but ignored when reading.
    IndexData,
    /// Chunk info (`op` 0x06).
    ChunkInfo(ChunkInfo),
}

/// Specification view of [`Record`].
pub ghost enum RecordV {
    BagHeader(BagHeader),
    Chunk(Chunk),
    Connection(ConnectionV),
    MessageData(MessageData),
    IndexData,
    ChunkInfo(ChunkInfoV),
}

impl View for Record {
    type V = RecordV;

    open spec fn view(&self) -> RecordV {
        match self {
            Record::BagHeader(b) => RecordV::BagHeader(*b),
            Record::Chunk(c) => RecordV::Chunk(*c),
            Record::Connection(c) => RecordV::Connection(c@),
            Record::MessageData(m) => RecordV::MessageData(*m),
            Record::IndexData => RecordV::IndexData,
            Record::ChunkInfo(ci) => RecordV::ChunkInfo(ci@),
        }
    }
}

impl DeepView for Record {
    type V = RecordV;

    open spec fn deep_view(&self) -> RecordV {
        self@
    }
}

// ---------------------------------------------------------------------------
// Kind-specific constructors, at the specification level
// ---------------------------------------------------------------------------

pub open spec fn spec_bag_header_from(fs: Seq<(Seq<u8>, Seq<u8>)>, data_pos: usize) -> Result<
    RecordV,
    RosError,
> {
    match (
        spec_field_u64(fs, ascii_of("index_pos")),
        spec_field_u32(fs, ascii_of("conn_count")),
        spec_field_u32(fs, ascii_of("chunk_count")),
    ) {
        (Some(index_pos), Some(conn_count), Some(chunk_count)) => Ok(
            RecordV::BagHeader(BagHeader { index_pos, conn_count, chunk_count, data_pos }),
        ),
        _ => Err(RosError::InvalidHeader),
    }
}

pub open spec fn spec_compression_of(v: Seq<u8>) -> Option<Compression> {
    if v == ascii_of("none") {
        Some(Compression::Uncompressed)
    } else if v == ascii_of("bz2") {
        Some(Compression::Bz2)
    } else if v == ascii_of("lz4") {
        Some(Compression::Lz4)
    } else {
        None
    }
}

pub open spec fn spec_chunk_from(fs: Seq<(Seq<u8>, Seq<u8>)>, data_pos: usize) -> Result<
    RecordV,
    RosError,
> {
    match (spec_get_field(fs, ascii_of("compression")), spec_field_u32(fs, ascii_of("size"))) {
        (Some(comp), Some(size)) => match spec_compression_of(comp) {
            Some(compression) => Ok(RecordV::Chunk(Chunk { data_pos, compression, size })),
            None => Err(RosError::InvalidHeader),
        },
        _ => Err(RosError::InvalidHeader),
    }
}

pub open spec fn spec_connection_from(fs: Seq<(Seq<u8>, Seq<u8>)>, data_pos: usize) -> Result<
    RecordV,
    RosError,
> {
    match (spec_field_u32(fs, ascii_of("conn")), spec_get_field(fs, ascii_of("topic"))) {
        (Some(conn), Some(topic)) => Ok(
            RecordV::Connection(
                ConnectionV { data_pos, conn, topic: spec_lossy_chars(topic), data: None },
            ),
        ),
        _ => Err(RosError::InvalidHeader),
    }
}

pub open spec fn spec_message_data_from(fs: Seq<(Seq<u8>, Seq<u8>)>, data_pos: usize) -> Result<
    RecordV,
    RosError,
> {
    match (spec_field_u32(fs, ascii_of("conn")), spec_field_time(fs, ascii_of("time"))) {
        (Some(conn), Some(time)) => Ok(RecordV::MessageData(MessageData { data_pos, conn, time })),
        _ => Err(RosError::InvalidHeader),
    }
}

pub open spec fn spec_chunk_info_from(fs: Seq<(Seq<u8>, Seq<u8>)>, data_pos: usize) -> Result<
    RecordV,
    RosError,
> {
    match (
        spec_field_u32(fs, ascii_of("ver")),
        spec_field_u32(fs, ascii_of("chunk_pos")),
        spec_field_time(fs, ascii_of("start_time")),
        spec_field_time(fs, ascii_of("end_time")),
        spec_field_u32(fs, ascii_of("count")),
    ) {
        (Some(ver), Some(chunk_pos), Some(start_time), Some(end_time), Some(count)) => Ok(
            RecordV::ChunkInfo(
                ChunkInfoV {
                    data_pos,
                    ver,
                    chunk_pos,
                    start_time,
                    end_time,
                    count,
                    entries: Seq::empty(),
                },
            ),
        ),
        _ => Err(RosError::InvalidHeader),
    }
}

/// What [`parse_header_bytes`] returns for given header bytes.
pub open spec fn spec_parse_record(data_pos: usize, h: Seq<u8>) -> Result<RecordV, RosError> {
    match spec_parse_fields(h) {
        None => Err(RosError::InvalidHeader),
        Some(fs) => match spec_get_field(fs, ascii_of("op")) {
            None => Err(RosError::InvalidHeader),
            Some(op) => if op.len() != 1 {
                Err(RosError::InvalidHeader)
            } else if op[0] == OP_BAG_HEADER {
                spec_bag_header_from(fs, data_pos)
            } else if op[0] == OP_CHUNK {
                spec_chunk_from(fs, data_pos)
            } else if op[0] == OP_CONNECTION {
                spec_connection_from(fs, data_pos)
            } else if op[0] == OP_MESSAGE_DATA {
                spec_message_data_from(fs, data_pos)
            } else if op[0] == OP_INDEX_DATA {
                Ok(RecordV::IndexData)
            } else if op[0] == OP_CHUNK_INFO {
                spec_chunk_info_from(fs, data_pos)
            } else {
                Err(RosError::InvalidHeader)
            },
        },
    }
}

/// Maps a parse result to its specification view.
pub open spec fn record_result_view(r: Result<Record, RosError>) -> Result<RecordV, RosError> {
    match r {
        Ok(rec) => Ok(rec@),
        Err(e) => Err(e),
    }
}

/// Splits header bytes into fields, reads `op`, and dispatches to the
/// kind-specific constructor. `data_pos` is the absolute offset of the
/// record's data bytes, stored so the data can be fetched lazily.
pub fn parse_header_bytes(data_pos: usize, header_bytes: &[u8]) -> (r: Result<Record, RosError>)
    ensures
        record_result_view(r) == spec_parse_record(data_pos, header_bytes@),
{
    proof {
        reveal_strlit("op");
    }
    let fs = match parse_header_fields(header_bytes) {
        None => {
            return Err(RosError::InvalidHeader);
        },
        Some(fs) => fs,
    };
    let op_name = ascii_bytes("op");
    let op = match get_field(&fs, op_name.as_slice()) {
        None => {
            return Err(RosError::InvalidHeader);
        },
        Some(op) => op,
    };
    if op.len() != 1 {
        return Err(RosError::InvalidHeader);
    }
    let op0 = op[0];
    if op0 == OP_BAG_HEADER {
        proof {
            reveal_strlit("index_pos");
            reveal_strlit("conn_count");
            reveal_strlit("chunk_count");
        }
        let index_pos = field_u64(&fs, ascii_bytes("index_pos").as_slice());
        let conn_count = field_u32(&fs, ascii_bytes("conn_count").as_slice());
        let chunk_count = field_u32(&fs, ascii_bytes("chunk_count").as_slice());
        match (index_pos, conn_count, chunk_count) {
            (Some(index_pos), Some(conn_count), Some(chunk_count)) => Ok(
                Record::BagHeader(BagHeader { index_pos, conn_count, chunk_count, data_pos }),
            ),
            _ => Err(RosError::InvalidHeader),
        }
    } else if op0 == OP_CHUNK {
        proof {
            reveal_strlit("compression");
            reveal_strlit("size");
            reveal_strlit("none");
            reveal_strlit("bz2");
            reveal_strlit("lz4");
        }
        let comp = match get_field(&fs, ascii_bytes("compression").as_slice()) {
            None => {
                return Err(RosError::InvalidHeader);
            },
            Some(v) => v,
        };
        let size = match field_u32(&fs, ascii_bytes("size").as_slice()) {
            None => {
                return Err(RosError::InvalidHeader);
            },
            Some(s) => s,
        };
        let compression = if bytes_eq(comp.as_slice(), ascii_bytes("none").as_slice()) {
            Compression::Uncompressed
        } else if bytes_eq(comp.as_slice(), ascii_bytes("bz2").as_slice()) {
            Compression::Bz2
        } else if bytes_eq(comp.as_slice(), ascii_bytes("lz4").as_slice()) {
            Compression::Lz4
        } else {
            return Err(RosError::InvalidHeader);
        };
        Ok(Record::Chunk(Chunk { data_pos, compression, size }))
    } else if op0 == OP_CONNECTION {
        proof {
            reveal_strlit("conn");
            reveal_strlit("topic");
        }
        let conn = field_u32(&fs, ascii_bytes("conn").as_slice());
        let topic = get_field(&fs, ascii_bytes("topic").as_slice());
        match (conn, topic) {
            (Some(conn), Some(topic)) => {
                let topic = crate::foreign::bytes_to_string_lossy(topic.as_slice());
                Ok(Record::Connection(Connection { data_pos, conn, topic, data: None }))
            },
            _ => Err(RosError::InvalidHeader),
        }
    } else if op0 == OP_MESSAGE_DATA {
        proof {
            reveal_strlit("conn");
            reveal_strlit("time");
        }
        let conn = field_u32(&fs, ascii_bytes("conn").as_slice());
        let time = field_time(&fs, ascii_bytes("time").as_slice());
        match (conn, time) {
            (Some(conn), Some(time)) => Ok(
                Record::MessageData(MessageData { data_pos, conn, time }),
            ),
            _ => Err(RosError::InvalidHeader),
        }
    } else if op0 == OP_INDEX_DATA {
        Ok(Record::IndexData)
    } else if op0 == OP_CHUNK_INFO {
        proof {
            reveal_strlit("ver");
            reveal_strlit("chunk_pos");
            reveal_strlit("start_time");
            reveal_strlit("end_time");
            reveal_strlit("count");
        }
        let ver = field_u32(&fs, ascii_bytes("ver").as_slice());
        let chunk_pos = field_u32(&fs, ascii_bytes("chunk_pos").as_slice());
        let start_time = field_time(&fs, ascii_bytes("start_time").as_slice());
        let end_time = field_time(&fs, ascii_bytes("end_time").as_slice());
        let count = field_u32(&fs, ascii_bytes("count").as_slice());
        match (ver, chunk_pos, start_time, end_time, count) {
            (Some(ver), Some(chunk_pos), Some(start_time), Some(end_time), Some(count)) => Ok(
                Record::ChunkInfo(
                    ChunkInfo {
                        data_pos,
                        ver,
                        chunk_pos,
                        start_time,
                        end_time,
                        count,
                        entries: Vec::new(),
                    },
                ),
            ),
            _ => Err(RosError::InvalidHeader),
        }
    } else {
        Err(RosError::InvalidHeader)
    }
}

// ---------------------------------------------------------------------------
// Record payloads
// ---------------------------------------------------------------------------

/// The `(conn, count)` pairs of a chunk-info data payload, which must be
/// exactly `8 * count` bytes.
pub open spec fn spec_chunk_info_entries(count: u32, b: Seq<u8>) -> Result<
    Seq<ChunkInfoDataEntry>,
    RosError,
> {
    if b.len() != 8 * (count as int) {
        Err(RosError::InvalidRecord)
    } else {
        Ok(
            Seq::new(
                count as nat,
                |i: int|
                    ChunkInfoDataEntry {
                        conn: spec_u32_at(b, 8 * i),
                        count: spec_u32_at(b, 8 * i + 4),
                    },
            ),
        )
    }
}

impl ChunkInfo {
    /// Parses this record's data payload: `count` pairs of
    /// `u32 conn, u32 msg_count`.
    pub fn new_chunk_info_data_entries_from_bytes(&self, bytes: &[u8]) -> (r: Result<
        Vec<ChunkInfoDataEntry>,
        RosError,
    >)
        ensures
            match r {
                Ok(v) => spec_chunk_info_entries(self.count, bytes@) == Ok::<
                    Seq<ChunkInfoDataEntry>,
                    RosError,
                >(v@),
                Err(e) => spec_chunk_info_entries(self.count, bytes@) == Err::<
                    Seq<ChunkInfoDataEntry>,
                    RosError,
                >(e),
            },
    {
        let n = bytes.len();
        if (n as u64) != 8u64 * (self.count as u64) {
            return Err(RosError::InvalidRecord);
        }
        let count = self.count as usize;
        let mut out: Vec<ChunkInfoDataEntry> = Vec::new();
        let mut i: usize = 0;
        while i < count
            invariant
                0 <= i <= count,
                n == bytes@.len(),
                n == 8 * count,
                count == self.count,
                out@.len() == i,
                forall|j: int|
                    0 <= j < i ==> out@[j] == (ChunkInfoDataEntry {
                        conn: spec_u32_at(bytes@, 8 * j),
                        count: spec_u32_at(bytes@, 8 * j + 4),
                    }),
            decreases count - i,
        {
            let conn = read_u32_le(bytes, 8 * i);
            let cnt = read_u32_le(bytes, 8 * i + 4);
            out.push(ChunkInfoDataEntry { conn, count: cnt });
            i = i + 1;
        }
        assert(out@ =~= spec_chunk_info_entries(self.count, bytes@)->Ok_0);
        Ok(out)
    }
}

/// What [`ConnectionData::try_new`] returns for a given data payload.
pub open spec fn spec_connection_data(b: Seq<u8>) -> Result<ConnectionDataV, RosError> {
    match spec_parse_fields(b) {
        None => Err(RosError::InvalidHeader),
        Some(fs) => match (
            spec_get_field(fs, ascii_of("topic")),
            spec_get_field(fs, ascii_of("type")),
            spec_get_field(fs, ascii_of("md5sum")),
            spec_get_field(fs, ascii_of("message_definition")),
        ) {
            (Some(t), Some(ty), Some(md), Some(def)) => Ok(
                ConnectionDataV {
                    topic: spec_lossy_chars(t),
                    message_type: spec_lossy_chars(ty),
                    md5sum: spec_lossy_chars(md),
                    message_definition: spec_lossy_chars(def),
                    caller_id: match spec_get_field(fs, ascii_of("callerid")) {
                        Some(c) => Some(spec_lossy_chars(c)),
                        None => None,
                    },
                    latching: spec_get_field(fs, ascii_of("latching")) == Some(ascii_of("1")),
                },
            ),
            _ => Err(RosError::InvalidHeader),
        },
    }
}

impl ConnectionData {
    /// Parses a connection record's data payload: a key/value map with
    /// required `topic`, `type`, `md5sum` and `message_definition`
    /// entries, an optional `callerid`, and `latching` set when its
    /// value is `1`.
    pub fn try_new(bytes: &[u8]) -> (r: Result<ConnectionData, RosError>)
        ensures
            match r {
                Ok(cd) => spec_connection_data(bytes@) == Ok::<ConnectionDataV, RosError>(cd@),
                Err(e) => spec_connection_data(bytes@) == Err::<ConnectionDataV, RosError>(e),
            },
    {
        proof {
            reveal_strlit("topic");
            reveal_strlit("type");
            reveal_strlit("md5sum");
            reveal_strlit("message_definition");
            reveal_strlit("callerid");
            reveal_strlit("latching");
            reveal_strlit("1");
        }
        let fs = match parse_header_fields(bytes) {
            None => {
                return Err(RosError::InvalidHeader);
            },
            Some(fs) => fs,
        };
        let topic = get_field(&fs, ascii_bytes("topic").as_slice());
        let ty = get_field(&fs, ascii_bytes("type").as_slice());
        let md5 = get_field(&fs, ascii_bytes("md5sum").as_slice());
        let def = get_field(&fs, ascii_bytes("message_definition").as_slice());
        match (topic, ty, md5, def) {
            (Some(t), Some(ty), Some(md), Some(def)) => {
                let caller_id = match get_field(&fs, ascii_bytes("callerid").as_slice()) {
                    Some(c) => Some(crate::foreign::bytes_to_string_lossy(c.as_slice())),
                    None => None,
                };
                let latching = match get_field(&fs, ascii_bytes("latching").as_slice()) {
                    Some(v) => bytes_eq(v.as_slice(), ascii_bytes("1").as_slice()),
                    None => false,
                };
                Ok(
                    ConnectionData {
                        topic: crate::foreign::bytes_to_string_lossy(t.as_slice()),
                        message_type: crate::foreign::bytes_to_string_lossy(ty.as_slice()),
                        md5sum: crate::foreign::bytes_to_string_lossy(md.as_slice()),
                        message_definition: crate::foreign::bytes_to_string_lossy(def.as_slice()),
                        caller_id,
                        latching,
                    },
                )
            },
            _ => Err(RosError::InvalidHeader),
        }
    }
}

// ---------------------------------------------------------------------------
// Walking records in a buffer
// ---------------------------------------------------------------------------

/// What reading one framed record at `pos` yields: the parsed record,
/// its data bytes, and the offset just past the record.
pub open spec fn spec_read_record_at(b: Seq<u8>, pos: int) -> Result<
    (RecordV, Seq<u8>, int),
    RosError,
> {
    if pos + 4 > b.len() {
        Err(RosError::OutOfBounds)
    } else {
        let hlen = spec_u32_at(b, pos) as int;
        let hend = pos + 4 + hlen;
        if hend + 4 > b.len() {
            Err(RosError::OutOfBounds)
        } else {
            let dlen = spec_u32_at(b, hend) as int;
            let dend = hend + 4 + dlen;
            if dend > b.len() {
                Err(RosError::OutOfBounds)
            } else {
                match spec_parse_record((hend + 4) as usize, b.subrange(pos + 4, hend)) {
                    Err(e) => Err(e),
                    Ok(rv) => Ok((rv, b.subrange(hend + 4, dend), dend)),
                }
            }
        }
    }
}

pub proof fn lemma_read_record_at_next(b: Seq<u8>, pos: int)
    requires
        0 <= pos,
    ensures
        match spec_read_record_at(b, pos) {
            Ok(t) => pos + 8 <= t.2 <= b.len(),
            Err(_) => true,
        },
{
}

/// Reads the framed record that starts at `pos`: header length, header,
/// data length, data. Returns the record, its data bytes, and the offset
/// just past the record.
pub fn read_record_at(b: &[u8], pos: usize) -> (r: Result<(Record, Vec<u8>, usize), RosError>)
    requires
        pos <= b@.len(),
    ensures
        match r {
            Ok(t) => spec_read_record_at(b@, pos as int) matches Ok(s) && s.0 == t.0@ && s.1
                == t.1@ && s.2 == t.2 as int && pos + 8 <= t.2 <= b@.len(),
            Err(e) => spec_read_record_at(b@, pos as int) == Err::<
                (RecordV, Seq<u8>, int),
                RosError,
            >(e),
        },
{
    let n = b.len();
    if n - pos < 4 {
        return Err(RosError::OutOfBounds);
    }
    let hlen = read_u32_le(b, pos) as usize;
    if hlen > n - pos - 4 || n - pos - 4 - hlen < 4 {
        return Err(RosError::OutOfBounds);
    }
    let hend = pos + 4 + hlen;
    let dlen = read_u32_le(b, hend) as usize;
    if dlen > n - hend - 4 {
        return Err(RosError::OutOfBounds);
    }
    let dend = hend + 4 + dlen;
    let header = bytes_range(b, pos + 4, hend);
    match parse_header_bytes(hend + 4, header.as_slice()) {
        Err(e) => Err(e),
        Ok(rec) => {
            let data = bytes_range(b, hend + 4, dend);
            Ok((rec, data, dend))
        },
    }
}

/// The records of `b` from `pos` to the end of the buffer, each with its
/// data bytes.
pub open spec fn spec_iterate_records(b: Seq<u8>, pos: int) -> Result<
    Seq<(RecordV, Seq<u8>)>,
    RosError,
>
    recommends
        0 <= pos <= b.len(),
    decreases b.len() - pos,
    via spec_iterate_records_dec
{
    if pos >= b.len() {
        Ok(Seq::empty())
    } else {
        match spec_read_record_at(b, pos) {
            Err(e) => Err(e),
            Ok(t) => match spec_iterate_records(b, t.2) {
                Err(e) => Err(e),
                Ok(rest) => Ok(seq![(t.0, t.1)] + rest),
            },
        }
    }
}

#[via_fn]
proof fn spec_iterate_records_dec(b: Seq<u8>, pos: int) {
    if 0 <= pos {
        lemma_read_record_at_next(b, pos);
    }
}

/// Walks all records of a contiguous buffer from `start` until the
/// buffer is exhausted.
pub fn iterate_records(b: &[u8], start: usize) -> (r: Result<Vec<(Record, Vec<u8>)>, RosError>)
    requires
        start <= b@.len(),
    ensures
        match r {
            Ok(v) => spec_iterate_records(b@, start as int) == Ok::<
                Seq<(RecordV, Seq<u8>)>,
                RosError,
            >(v.deep_view()),
            Err(e) => spec_iterate_records(b@, start as int) == Err::<
                Seq<(RecordV, Seq<u8>)>,
                RosError,
            >(e),
        },
{
    let n = b.len();
    let mut acc: Vec<(Record, Vec<u8>)> = Vec::new();
    let mut pos: usize = start;
    assert(acc.deep_view() =~= Seq::<(RecordV, Seq<u8>)>::empty());
    while pos < n
        invariant
            start <= pos <= n,
            n == b@.len(),
            spec_iterate_records(b@, start as int) == (match spec_iterate_records(
                b@,
                pos as int,
            ) {
                Err(e) => Err::<Seq<(RecordV, Seq<u8>)>, RosError>(e),
                Ok(rest) => Ok(acc.deep_view() + rest),
            }),
        decreases n - pos,
    {
        match read_record_at(b, pos) {
            Err(e) => {
                return Err(e);
            },
            Ok((rec, data, next)) => {
                let ghost rv = (rec@, data@);
                let pair = (rec, data);
                let ghost pre = acc.deep_view();
                assert(pair.deep_view().0 == rv.0);
                assert(pair.deep_view().1 =~= rv.1);
                assert(pair.deep_view() == rv);
                acc.push(pair);
                pos = next;
                proof {
                    assert(acc.deep_view() =~= pre.push(rv));
                    if spec_iterate_records(b@, pos as int) is Ok {
                        let rest = spec_iterate_records(b@, pos as int)->Ok_0;
                        assert(pre + (seq![rv] + rest) =~= acc.deep_view() + rest);
                    }
                }
            },
        }
    }
    assert(spec_iterate_records(b@, pos as int) == Ok::<Seq<(RecordV, Seq<u8>)>, RosError>(
        Seq::empty(),
    ));
    assert(acc.deep_view() + Seq::<(RecordV, Seq<u8>)>::empty() =~= acc.deep_view());
    Ok(acc)
}

} // verus!
