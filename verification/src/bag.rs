//! The bag reader: validates the version, reads the bag header, parses
//! the tail index once, and answers queries and message reads.
use vstd::prelude::*;

use crate::chunk_decode::{decode_chunk, spec_decode_chunk};
use crate::data_type::MsgTypeV;
use crate::error::RosError;
use crate::meta::{
    ctm_wf, meta_wf, spec_connection_to_id_message, spec_conns_for_topics, spec_filter_chunks,
    spec_meta, Meta, MetaV,
};
use crate::msg::MsgType;
use crate::msg_value::{MsgValue, MsgValueV};
use crate::records::{
    ascii_bytes, ascii_of, read_record_at, spec_read_record_at, BagHeader, Connection, Record,
    RecordV,
};
use crate::wire::{bytes_eq, bytes_range, NS_PER_SEC};

verus! {

/// The leading version string of a readable bag.
pub open spec fn spec_version_ok(b: Seq<u8>) -> bool {
    b.len() >= crate::VERSION_LEN && b.subrange(0, crate::VERSION_LEN as int) == ascii_of(
        "#ROSBAG V2.0\n",
    )
}

/// Everything computed once on first metadata access: the bag header,
/// the parsed tail index, and the compiled schema table.
#[derive(Debug)]
pub struct BagIndex {
    /// The bag header record.
    pub bag_header: BagHeader,
    /// The parsed tail index.
    pub meta: Meta,
    /// Connection id to compiled message type.
    pub connection_to_id_message: Vec<(u32, MsgType)>,
}

/// Specification view of [`BagIndex`].
pub ghost struct BagIndexV {
    pub bag_header: BagHeader,
    pub meta: MetaV,
    pub connection_to_id_message: Seq<(u32, MsgTypeV)>,
}

impl View for BagIndex {
    type V = BagIndexV;

    open spec fn view(&self) -> BagIndexV {
        BagIndexV {
            bag_header: self.bag_header,
            meta: self.meta@,
            connection_to_id_message: self.connection_to_id_message.deep_view(),
        }
    }
}

/// What the first metadata access computes from the bag bytes: the
/// version is checked, the bag header read at the version string's end,
/// the tail index parsed from `index_pos`, and the schemas compiled.
pub open spec fn spec_bag_init(b: Seq<u8>) -> Result<BagIndexV, RosError> {
    if !spec_version_ok(b) {
        Err(RosError::InvalidVersion)
    } else {
        match spec_read_record_at(b, crate::VERSION_LEN as int) {
            Err(e) => Err(e),
            Ok((rv, _, _)) => match rv {
                RecordV::BagHeader(bh) => if bh.index_pos > b.len() {
                    Err(RosError::OutOfBounds)
                } else {
                    match spec_meta(b.subrange(bh.index_pos as int, b.len() as int)) {
                        Err(e) => Err(e),
                        Ok(mv) => match spec_connection_to_id_message(mv) {
                            Err(e) => Err(e),
                            Ok(ctm) => Ok(
                                BagIndexV {
                                    bag_header: bh,
                                    meta: mv,
                                    connection_to_id_message: ctm,
                                },
                            ),
                        },
                    }
                },
                _ => Err(RosError::InvalidHeader),
            },
        }
    }
}

/// A bag over an in-memory blob. The index is computed at most once, on
/// first use, and both its value and its failure are kept: every later
/// call observes the same result.
#[derive(Debug)]
pub struct Bag {
    data: Vec<u8>,
    state: Option<Result<BagIndex, RosError>>,
}

/// Specification view of [`Bag`].
pub ghost struct BagV {
    pub data: Seq<u8>,
    pub state: Option<Result<BagIndexV, RosError>>,
}

impl View for Bag {
    type V = BagV;

    closed spec fn view(&self) -> BagV {
        BagV {
            data: self.data@,
            state: match self.state {
                None => None,
                Some(Ok(ref ix)) => Some(Ok(ix@)),
                Some(Err(e)) => Some(Err(e)),
            },
        }
    }
}

/// A bag's cached state, where present, is exactly what
/// [`spec_bag_init`] yields on its bytes, and a cached index is well
/// formed.
pub open spec fn bag_wf(bv: BagV) -> bool {
    match bv.state {
        None => true,
        Some(st) => st == spec_bag_init(bv.data) && match st {
            Ok(ix) => meta_wf(ix.meta) && ctm_wf(ix.connection_to_id_message),
            Err(_) => true,
        },
    }
}

/// Saturating addition on timestamps.
pub open spec fn spec_sat_add(a: u64, b: u64) -> u64 {
    if a + b > u64::MAX {
        u64::MAX
    } else {
        (a + b) as u64
    }
}

/// The absolute window start: the bag start plus the offset in seconds.
pub open spec fn spec_abs_start(mv: MetaV, start: Option<u64>) -> u64 {
    match start {
        None => mv.start_ts,
        Some(s) => spec_sat_add(mv.start_ts, (s * (NS_PER_SEC as u64)) as u64),
    }
}

/// The absolute window end: the offset in seconds is added to the bag
/// end (not the start).
pub open spec fn spec_abs_end(mv: MetaV, end: Option<u64>) -> u64 {
    match end {
        None => mv.end_ts,
        Some(e) => spec_sat_add(mv.end_ts, (e * (NS_PER_SEC as u64)) as u64),
    }
}

/// The schema table restricted to the given connection ids.
pub open spec fn spec_ctm_restrict(ctm: Seq<(u32, MsgTypeV)>, conns: Seq<u32>) -> Seq<
    (u32, MsgTypeV),
>
    decreases ctm.len(),
{
    if ctm.len() == 0 {
        Seq::empty()
    } else {
        spec_ctm_restrict(ctm.drop_last(), conns) + (if conns.contains(ctm.last().0) {
            seq![ctm.last()]
        } else {
            Seq::empty()
        })
    }
}

/// The messages of the chunks at the given positions, in position-list
/// order, each batch in on-disk order.
pub open spec fn spec_msgs_for_chunks(
    b: Seq<u8>,
    positions: Seq<u32>,
    ctm: Seq<(u32, MsgTypeV)>,
    start: u64,
    end: u64,
) -> Result<Seq<(u64, u32, MsgValueV)>, RosError>
    decreases positions.len(),
{
    if positions.len() == 0 {
        Ok(Seq::empty())
    } else {
        match spec_msgs_for_chunks(b, positions.drop_last(), ctm, start, end) {
            Err(e) => Err(e),
            Ok(acc) => if positions.last() > b.len() {
                Err(RosError::OutOfBounds)
            } else {
                match spec_decode_chunk(b, positions.last() as int, ctm, start, end) {
                    Err(e) => Err(e),
                    Ok(ms) => Ok(acc + ms),
                }
            },
        }
    }
}

/// What [`Bag::read_messages`] yields on a bag's bytes: the index is
/// computed, the window converted to absolute times, the chunks
/// filtered, and their messages emitted in chunk order.
pub open spec fn spec_bag_messages(
    d: Seq<u8>,
    topics: Option<Seq<Seq<char>>>,
    start: Option<u64>,
    end: Option<u64>,
) -> Result<Seq<(u64, u32, MsgValueV)>, RosError> {
    match spec_bag_init(d) {
        Err(e) => Err(e),
        Ok(ix) => {
            let abs_start = spec_abs_start(ix.meta, start);
            let abs_end = spec_abs_end(ix.meta, end);
            let conns = match topics {
                None => None,
                Some(ts) => Some(spec_conns_for_topics(ix.meta.topic_to_connections, ts)),
            };
            let ctm = match conns {
                None => ix.connection_to_id_message,
                Some(cs) => spec_ctm_restrict(ix.connection_to_id_message, cs),
            };
            spec_msgs_for_chunks(
                d,
                spec_filter_chunks(ix.meta.chunk_infos, conns, Some(abs_start), Some(abs_end)),
                ctm,
                abs_start,
                abs_end,
            )
        },
    }
}

proof fn lemma_msgs_for_chunks_err_prefix(
    b: Seq<u8>,
    positions: Seq<u32>,
    ctm: Seq<(u32, MsgTypeV)>,
    start: u64,
    end: u64,
    k: int,
)
    requires
        0 <= k <= positions.len(),
        spec_msgs_for_chunks(b, positions.take(k), ctm, start, end) is Err,
    ensures
        spec_msgs_for_chunks(b, positions, ctm, start, end) == spec_msgs_for_chunks(
            b,
            positions.take(k),
            ctm,
            start,
            end,
        ),
    decreases positions.len() - k,
{
    if k == positions.len() {
        assert(positions.take(k) =~= positions);
    } else {
        assert(positions.take(k + 1).drop_last() =~= positions.take(k));
        lemma_msgs_for_chunks_err_prefix(b, positions, ctm, start, end, k + 1);
    }
}

impl Bag {
    /// Wraps a bag's bytes. Construction always succeeds; the version
    /// and index are checked on the first call that needs them.
    pub fn new_from_bytes(data: Vec<u8>) -> (r: Bag)
        ensures
            r@.data == data@,
            r@.state is None,
            bag_wf(r@),
    {
        Bag { data, state: None }
    }

    /// Computes the index at most once: a second call observes the
    /// first call's result, success or failure.
    fn init(&mut self)
        requires
            bag_wf(old(self)@),
        ensures
            final(self)@.data == old(self)@.data,
            final(self)@.state == Some(spec_bag_init(old(self)@.data)),
            bag_wf(final(self)@),
    {
        match &self.state {
            Some(_) => {
                return ;
            },
            None => {},
        }
        let st = Self::compute_index(&self.data);
        proof {
            match st {
                Ok(ref ix) => {
                    assert(spec_bag_init(self.data@) == Ok::<BagIndexV, RosError>(ix@));
                },
                Err(e) => {},
            }
        }
        self.state = Some(st);
    }

    /// Performs the whole first-access computation on the bytes.
    fn compute_index(data: &Vec<u8>) -> (r: Result<BagIndex, RosError>)
        ensures
            match r {
                Ok(ix) => spec_bag_init(data@) == Ok::<BagIndexV, RosError>(ix@) && meta_wf(
                    ix@.meta,
                ) && ctm_wf(ix@.connection_to_id_message),
                Err(e) => spec_bag_init(data@) == Err::<BagIndexV, RosError>(e),
            },
    {
        proof {
            reveal_strlit("#ROSBAG V2.0\n");
        }
        if data.len() < crate::VERSION_LEN {
            assert(!spec_version_ok(data@));
            return Err(RosError::InvalidVersion);
        }
        let version = bytes_range(data.as_slice(), 0, crate::VERSION_LEN);
        let expected = ascii_bytes("#ROSBAG V2.0\n");
        if !bytes_eq(version.as_slice(), expected.as_slice()) {
            assert(!spec_version_ok(data@));
            return Err(RosError::InvalidVersion);
        }
        assert(spec_version_ok(data@));
        let (record, _, _) = match read_record_at(data.as_slice(), crate::VERSION_LEN) {
            Err(e) => {
                return Err(e);
            },
            Ok(t) => t,
        };
        let bag_header = match record {
            Record::BagHeader(bh) => bh,
            _ => {
                return Err(RosError::InvalidHeader);
            },
        };
        if bag_header.index_pos > data.len() as u64 {
            return Err(RosError::OutOfBounds);
        }
        let index_pos = bag_header.index_pos as usize;
        let tail = bytes_range(data.as_slice(), index_pos, data.len());
        let meta = match Meta::try_new_from_bytes(tail.as_slice()) {
            Err(e) => {
                return Err(e);
            },
            Ok(m) => m,
        };
        let connection_to_id_message = match meta.borrow_connection_to_id_message() {
            Err(e) => {
                return Err(e);
            },
            Ok(ctm) => ctm,
        };
        Ok(BagIndex { bag_header, meta, connection_to_id_message })
    }

    /// The topic names of the bag, in first-seen order.
    pub fn topics(&mut self) -> (r: Result<Vec<String>, RosError>)
        requires
            bag_wf(old(self)@),
        ensures
            bag_wf(final(self)@),
            final(self)@.data == old(self)@.data,
            match spec_bag_init(old(self)@.data) {
                Ok(ix) => r matches Ok(v) && v.deep_view().len()
                    == ix.meta.topic_to_connections.len() && (forall|i: int|
                    0 <= i < v.deep_view().len() ==> v.deep_view()[i]
                        == ix.meta.topic_to_connections[i].0),
                Err(e) => r == Err::<Vec<String>, RosError>(e),
            },
    {
        self.init();
        match &self.state {
            Some(Ok(ix)) => Ok(ix.meta.topics()),
            Some(Err(e)) => Err(*e),
            None => Err(RosError::BackendError),
        }
    }

    /// The connections of the bag, grouped by topic.
    pub fn connections_by_topic(&mut self) -> (r: Result<&Vec<(String, Vec<Connection>)>, RosError>)
        requires
            bag_wf(old(self)@),
        ensures
            bag_wf(final(self)@),
            final(self)@.data == old(self)@.data,
            match spec_bag_init(old(self)@.data) {
                Ok(ix) => r matches Ok(v) && v.deep_view() == ix.meta.topic_to_connections,
                Err(e) => r matches Err(e2) && e2 == e,
            },
    {
        self.init();
        match &self.state {
            Some(Ok(ix)) => Ok(ix.meta.connections_by_topic()),
            Some(Err(e)) => Err(*e),
            None => Err(RosError::BackendError),
        }
    }

    /// Total number of messages: the sum of all chunk-info counts.
    pub fn num_messages(&mut self) -> (r: Result<u64, RosError>)
        requires
            bag_wf(old(self)@),
        ensures
            bag_wf(final(self)@),
            final(self)@.data == old(self)@.data,
            match spec_bag_init(old(self)@.data) {
                Ok(ix) => r == Ok::<u64, RosError>(ix.meta.num_msgs) && ix.meta.num_msgs as int
                    == crate::meta::spec_sum_counts(ix.meta.chunk_infos),
                Err(e) => r == Err::<u64, RosError>(e),
            },
    {
        self.init();
        match &self.state {
            Some(Ok(ix)) => Ok(ix.meta.num_messages()),
            Some(Err(e)) => Err(*e),
            None => Err(RosError::BackendError),
        }
    }

    /// Earliest chunk start time of the bag.
    pub fn start_time(&mut self) -> (r: Result<u64, RosError>)
        requires
            bag_wf(old(self)@),
        ensures
            bag_wf(final(self)@),
            final(self)@.data == old(self)@.data,
            match spec_bag_init(old(self)@.data) {
                Ok(ix) => r == Ok::<u64, RosError>(ix.meta.start_ts) && ix.meta.start_ts
                    == crate::meta::spec_min_start(ix.meta.chunk_infos),
                Err(e) => r == Err::<u64, RosError>(e),
            },
    {
        self.init();
        match &self.state {
            Some(Ok(ix)) => Ok(ix.meta.start_time()),
            Some(Err(e)) => Err(*e),
            None => Err(RosError::BackendError),
        }
    }

    /// Latest chunk end time of the bag.
    pub fn end_time(&mut self) -> (r: Result<u64, RosError>)
        requires
            bag_wf(old(self)@),
        ensures
            bag_wf(final(self)@),
            final(self)@.data == old(self)@.data,
            match spec_bag_init(old(self)@.data) {
                Ok(ix) => r == Ok::<u64, RosError>(ix.meta.end_ts) && ix.meta.end_ts
                    == crate::meta::spec_max_end(ix.meta.chunk_infos),
                Err(e) => r == Err::<u64, RosError>(e),
            },
    {
        self.init();
        match &self.state {
            Some(Ok(ix)) => Ok(ix.meta.end_time()),
            Some(Err(e)) => Err(*e),
            None => Err(RosError::BackendError),
        }
    }

    /// Reads the messages of the bag, filtered by topics and by a time
    /// window given in seconds relative to the bag start (the end
    /// offset is added to the bag end). Messages come in chunk order;
    /// within a chunk, in on-disk order.
    pub fn read_messages(
        &mut self,
        topics: Option<&Vec<String>>,
        start: Option<u64>,
        end: Option<u64>,
    ) -> (r: Result<Vec<(u64, u32, MsgValue)>, RosError>)
        requires
            bag_wf(old(self)@),
            match start {
                Some(s) => s <= u64::MAX / (NS_PER_SEC as u64),
                None => true,
            },
            match end {
                Some(e) => e <= u64::MAX / (NS_PER_SEC as u64),
                None => true,
            },
        ensures
            bag_wf(final(self)@),
            final(self)@.data == old(self)@.data,
            ({
                let tv = match topics {
                    Some(ts) => Some(ts.deep_view()),
                    None => None::<Seq<Seq<char>>>,
                };
                match r {
                    Ok(v) => spec_bag_messages(old(self)@.data, tv, start, end) == Ok::<
                        Seq<(u64, u32, MsgValueV)>,
                        RosError,
                    >(v.deep_view()),
                    Err(e) => spec_bag_messages(old(self)@.data, tv, start, end) == Err::<
                        Seq<(u64, u32, MsgValueV)>,
                        RosError,
                    >(e),
                }
            }),
    {
        self.init();
        let ghost d = self@.data;
        let ix = match &self.state {
            Some(Ok(ix)) => ix,
            Some(Err(e)) => {
                return Err(*e);
            },
            None => {
                return Err(RosError::BackendError);
            },
        };
        proof {
            vstd::arithmetic::div_mod::lemma_fundamental_div_mod(
                u64::MAX as int,
                NS_PER_SEC as int,
            );
        }
        let abs_start = match start {
            None => ix.meta.start_time(),
            Some(s) => sat_add(ix.meta.start_time(), s * NS_PER_SEC),
        };
        let abs_end = match end {
            None => ix.meta.end_time(),
            Some(e) => sat_add(ix.meta.end_time(), e * NS_PER_SEC),
        };
        let positions = match ix.meta.filter_chunks(topics, Some(abs_start), Some(abs_end)) {
            Ok(p) => p,
            Err(e) => {
                return Err(e);
            },
        };
        let ctm = match topics {
            None => duplicate_ctm(&ix.connection_to_id_message),
            Some(ts) => {
                let conns = ix.meta.conns_for_topics(ts);
                ctm_restrict(&ix.connection_to_id_message, &conns)
            },
        };
        msgs_for_chunks_exec(&self.data, &positions, &ctm, abs_start, abs_end)
    }
}

/// Whether a vector holds a value.
fn contains_u32(v: &Vec<u32>, x: u32) -> (r: bool)
    ensures
        r == v@.contains(x),
{
    let n = v.len();
    let mut i: usize = 0;
    while i < n
        invariant
            0 <= i <= n,
            n == v@.len(),
            forall|j: int| 0 <= j < i ==> v@[j] != x,
        decreases n - i,
    {
        if v[i] == x {
            return true;
        }
        i = i + 1;
    }
    assert(!v@.contains(x));
    false
}

/// Copies the schema table, preserving its view.
fn duplicate_ctm(ctm: &Vec<(u32, MsgType)>) -> (r: Vec<(u32, MsgType)>)
    ensures
        r.deep_view() == ctm.deep_view(),
{
    let n = ctm.len();
    let mut out: Vec<(u32, MsgType)> = Vec::new();
    let mut i: usize = 0;
    while i < n
        invariant
            0 <= i <= n,
            n == ctm@.len(),
            out@.len() == i,
            forall|j: int| 0 <= j < i ==> out@[j].deep_view() == (#[trigger] ctm@[j]).deep_view(),
        decreases n - i,
    {
        let entry = (ctm[i].0, ctm[i].1.duplicate());
        assert(entry.deep_view() == ctm@[i as int].deep_view());
        out.push(entry);
        i = i + 1;
    }
    assert(out.deep_view() =~= ctm.deep_view());
    out
}

/// Keeps the schema entries of the given connection ids, in order.
fn ctm_restrict(ctm: &Vec<(u32, MsgType)>, conns: &Vec<u32>) -> (r: Vec<(u32, MsgType)>)
    ensures
        r.deep_view() == spec_ctm_restrict(ctm.deep_view(), conns@),
{
    let ghost cv = ctm.deep_view();
    let n = ctm.len();
    let mut out: Vec<(u32, MsgType)> = Vec::new();
    let mut i: usize = 0;
    assert(cv.take(0) =~= Seq::<(u32, MsgTypeV)>::empty());
    assert(out.deep_view() =~= Seq::<(u32, MsgTypeV)>::empty());
    while i < n
        invariant
            0 <= i <= n,
            n == ctm@.len(),
            cv == ctm.deep_view(),
            out.deep_view() == spec_ctm_restrict(cv.take(i as int), conns@),
        decreases n - i,
    {
        proof {
            assert(cv.take(i as int + 1).drop_last() =~= cv.take(i as int));
            assert(cv.take(i as int + 1).last() == cv[i as int]);
            assert(cv[i as int] == ctm@[i as int].deep_view());
        }
        let ghost pre = out.deep_view();
        if contains_u32(conns, ctm[i].0) {
            let entry = (ctm[i].0, ctm[i].1.duplicate());
            assert(entry.deep_view() == cv[i as int]);
            out.push(entry);
            assert(out.deep_view() =~= pre + seq![cv[i as int]]);
        } else {
            assert(out.deep_view() =~= pre + Seq::<(u32, MsgTypeV)>::empty());
        }
        i = i + 1;
    }
    assert(cv.take(n as int) =~= cv);
    out
}

/// Decodes the chunks at the given positions in order, concatenating
/// their message batches.
fn msgs_for_chunks_exec(
    data: &Vec<u8>,
    positions: &Vec<u32>,
    ctm: &Vec<(u32, MsgType)>,
    start: u64,
    end: u64,
) -> (r: Result<Vec<(u64, u32, MsgValue)>, RosError>)
    ensures
        match r {
            Ok(v) => spec_msgs_for_chunks(data@, positions@, ctm.deep_view(), start, end) == Ok::<
                Seq<(u64, u32, MsgValueV)>,
                RosError,
            >(v.deep_view()),
            Err(e) => spec_msgs_for_chunks(data@, positions@, ctm.deep_view(), start, end)
                == Err::<Seq<(u64, u32, MsgValueV)>, RosError>(e),
        },
{
    let ghost d = data@;
    let ghost pv = positions@;
    let ghost ctm_v = ctm.deep_view();
    let n = positions.len();
    let data_len = data.len();
    let mut out: Vec<(u64, u32, MsgValue)> = Vec::new();
    let mut i: usize = 0;
    assert(pv.take(0) =~= Seq::<u32>::empty());
    assert(out.deep_view() =~= Seq::<(u64, u32, MsgValueV)>::empty());
    while i < n
        invariant
            0 <= i <= n,
            n == positions@.len(),
            pv == positions@,
            d == data@,
            ctm_v == ctm.deep_view(),
            data_len == data@.len(),
            spec_msgs_for_chunks(d, pv.take(i as int), ctm_v, start, end) == Ok::<
                Seq<(u64, u32, MsgValueV)>,
                RosError,
            >(out.deep_view()),
        decreases n - i,
    {
        proof {
            assert(pv.take(i as int + 1).drop_last() =~= pv.take(i as int));
            assert(pv.take(i as int + 1).last() == pv[i as int]);
        }
        let pos = positions[i];
        if pos as usize > data_len {
            proof {
                lemma_msgs_for_chunks_err_prefix(d, pv, ctm_v, start, end, i as int + 1);
            }
            return Err(RosError::OutOfBounds);
        }
        match decode_chunk(data.as_slice(), pos as usize, ctm, start, end) {
            Err(e) => {
                proof {
                    lemma_msgs_for_chunks_err_prefix(d, pv, ctm_v, start, end, i as int + 1);
                }
                return Err(e);
            },
            Ok(mut batch) => {
                let ghost pre = out.deep_view();
                let ghost bv = batch.deep_view();
                out.append(&mut batch);
                assert(out.deep_view() =~= pre + bv);
            },
        }
        i = i + 1;
    }
    assert(pv.take(n as int) =~= pv);
    Ok(out)
}

/// Adds two timestamps, saturating at the largest value.
fn sat_add(a: u64, b: u64) -> (r: u64)
    ensures
        r == spec_sat_add(a, b),
{
    match a.checked_add(b) {
        Some(v) => v,
        None => u64::MAX,
    }
}

// ---------------------------------------------------------------------------
// Laws
// ---------------------------------------------------------------------------

/// Message delivery is grouped by chunk, in ascending chunk-list order:
/// when a read succeeds, the messages of the first `k` chunks form a
/// prefix, followed exactly by the batch of chunk `k`. Together with
/// [`crate::chunk_decode::lemma_chunk_messages_time_sorted`], this is
/// the delivery-order guarantee of a read.
pub proof fn lemma_messages_in_chunk_order(
    b: Seq<u8>,
    positions: Seq<u32>,
    ctm: Seq<(u32, MsgTypeV)>,
    start: u64,
    end: u64,
    k: int,
)
    requires
        0 <= k < positions.len(),
        spec_msgs_for_chunks(b, positions, ctm, start, end) is Ok,
    ensures
        spec_msgs_for_chunks(b, positions.take(k), ctm, start, end) is Ok,
        spec_msgs_for_chunks(b, positions.take(k + 1), ctm, start, end) is Ok,
        spec_decode_chunk(b, positions[k] as int, ctm, start, end) is Ok,
        spec_msgs_for_chunks(b, positions.take(k + 1), ctm, start, end)->Ok_0
            == spec_msgs_for_chunks(b, positions.take(k), ctm, start, end)->Ok_0
            + spec_decode_chunk(b, positions[k] as int, ctm, start, end)->Ok_0,
    decreases positions.len(),
{
    lemma_msgs_for_chunks_prefix_ok(b, positions, ctm, start, end, k + 1);
    lemma_msgs_for_chunks_prefix_ok(b, positions, ctm, start, end, k);
    assert(positions.take(k + 1).drop_last() =~= positions.take(k));
    assert(positions.take(k + 1).last() == positions[k]);
}

proof fn lemma_msgs_for_chunks_prefix_ok(
    b: Seq<u8>,
    positions: Seq<u32>,
    ctm: Seq<(u32, MsgTypeV)>,
    start: u64,
    end: u64,
    k: int,
)
    requires
        0 <= k <= positions.len(),
        spec_msgs_for_chunks(b, positions, ctm, start, end) is Ok,
    ensures
        spec_msgs_for_chunks(b, positions.take(k), ctm, start, end) is Ok,
    decreases positions.len() - k,
{
    if k == positions.len() {
        assert(positions.take(k) =~= positions);
    } else {
        lemma_msgs_for_chunks_prefix_ok(b, positions, ctm, start, end, k + 1);
        assert(positions.take(k + 1).drop_last() =~= positions.take(k));
    }
}

/// Parsing the same bytes twice produces identical results: the index,
/// every query answered from it, and the message sequence of any read
/// are functions of the bag bytes and the filter arguments alone, so
/// two bags over equal bytes agree on all of them.
pub proof fn lemma_parse_idempotent(
    a: BagV,
    b: BagV,
    topics: Option<Seq<Seq<char>>>,
    start: Option<u64>,
    end: Option<u64>,
)
    requires
        a.data == b.data,
    ensures
        spec_bag_init(a.data) == spec_bag_init(b.data),
        spec_bag_messages(a.data, topics, start, end) == spec_bag_messages(
            b.data,
            topics,
            start,
            end,
        ),
{
}

} // verus!
