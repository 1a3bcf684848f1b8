//! The tail-index metadata: connections joined to chunk-info records,
//! with topic and time-window filtering.
use vstd::prelude::*;

use crate::error::RosError;
use crate::records::{
    iterate_records, spec_chunk_info_entries, spec_connection_data, spec_iterate_records,
    ChunkInfo, ChunkInfoV, Connection, ConnectionV, Record, RecordV,
};
use crate::strutil::str_eq;

verus! {

/// The parsed tail index of a bag: connections grouped by topic, and
/// chunk-info records sorted by start time, with the global message
/// count and time range memoised.
#[derive(Debug)]
pub struct Meta {
    /// Connections grouped by topic, in first-seen topic order.
    pub topic_to_connections: Vec<(String, Vec<Connection>)>,
    /// Chunk-info records, sorted by `start_time` ascending.
    pub chunk_infos: Vec<ChunkInfo>,
    start_ts: u64,
    end_ts: u64,
    num_msgs: u64,
}

/// Specification view of [`Meta`].
pub ghost struct MetaV {
    pub topic_to_connections: Seq<(Seq<char>, Seq<ConnectionV>)>,
    pub chunk_infos: Seq<ChunkInfoV>,
    pub start_ts: u64,
    pub end_ts: u64,
    pub num_msgs: u64,
}

impl View for Meta {
    type V = MetaV;

    closed spec fn view(&self) -> MetaV {
        MetaV {
            topic_to_connections: self.topic_to_connections.deep_view(),
            chunk_infos: self.chunk_infos.deep_view(),
            start_ts: self.start_ts,
            end_ts: self.end_ts,
            num_msgs: self.num_msgs,
        }
    }
}

// ---------------------------------------------------------------------------
// Aggregates over chunk infos
// ---------------------------------------------------------------------------

/// Sum of the per-chunk message counts.
pub open spec fn spec_sum_counts(cis: Seq<ChunkInfoV>) -> int
    decreases cis.len(),
{
    if cis.len() == 0 {
        0
    } else {
        spec_sum_counts(cis.drop_last()) + cis.last().count
    }
}

/// Minimum chunk start time (`u64::MAX` for an empty bag).
pub open spec fn spec_min_start(cis: Seq<ChunkInfoV>) -> u64
    decreases cis.len(),
{
    if cis.len() == 0 {
        u64::MAX
    } else {
        let rest = spec_min_start(cis.drop_last());
        if cis.last().start_time < rest {
            cis.last().start_time
        } else {
            rest
        }
    }
}

/// Maximum chunk end time (`0` for an empty bag).
pub open spec fn spec_max_end(cis: Seq<ChunkInfoV>) -> u64
    decreases cis.len(),
{
    if cis.len() == 0 {
        0u64
    } else {
        let rest = spec_max_end(cis.drop_last());
        if cis.last().end_time > rest {
            cis.last().end_time
        } else {
            rest
        }
    }
}

/// Chunk infos in ascending start-time order.
pub open spec fn spec_cis_sorted(cis: Seq<ChunkInfoV>) -> bool {
    forall|i: int, j: int|
        0 <= i <= j < cis.len() ==> #[trigger] cis[i].start_time <= #[trigger] cis[j].start_time
}

/// A parsed index is well formed: the memoised aggregates match the
/// chunk list, and the list is sorted by start time.
pub open spec fn meta_wf(mv: MetaV) -> bool {
    &&& mv.num_msgs as int == spec_sum_counts(mv.chunk_infos)
    &&& mv.start_ts == spec_min_start(mv.chunk_infos)
    &&& mv.end_ts == spec_max_end(mv.chunk_infos)
    &&& spec_cis_sorted(mv.chunk_infos)
    &&& forall|i: int|
        0 <= i < mv.topic_to_connections.len() ==> forall|j: int|
            0 <= j < (#[trigger] mv.topic_to_connections[i]).1.len() ==> (
            #[trigger] mv.topic_to_connections[i].1[j]).data is Some
}

// ---------------------------------------------------------------------------
// Sorting chunk infos by start time (stable insertion sort)
// ---------------------------------------------------------------------------

/// Inserts `x` into a sorted sequence, after any equal keys.
pub open spec fn spec_ci_insert(s: Seq<ChunkInfoV>, x: ChunkInfoV) -> Seq<ChunkInfoV>
    decreases s.len(),
{
    if s.len() == 0 {
        seq![x]
    } else if x.start_time < s.last().start_time {
        spec_ci_insert(s.drop_last(), x).push(s.last())
    } else {
        s.push(x)
    }
}

/// Stable insertion sort by `start_time`.
pub open spec fn spec_ci_sort(s: Seq<ChunkInfoV>) -> Seq<ChunkInfoV>
    decreases s.len(),
{
    if s.len() == 0 {
        Seq::empty()
    } else {
        spec_ci_insert(spec_ci_sort(s.drop_last()), s.last())
    }
}

/// Every element of an insertion result is the inserted element or one
/// of the originals.
proof fn lemma_ci_insert_elems(s: Seq<ChunkInfoV>, x: ChunkInfoV)
    ensures
        spec_ci_insert(s, x).len() == s.len() + 1,
        forall|k: int|
            0 <= k < spec_ci_insert(s, x).len() ==> (#[trigger] spec_ci_insert(s, x)[k] == x
                || exists|j: int| 0 <= j < s.len() && spec_ci_insert(s, x)[k] == s[j]),
    decreases s.len(),
{
    if s.len() > 0 && x.start_time < s.last().start_time {
        lemma_ci_insert_elems(s.drop_last(), x);
        assert forall|k: int|
            0 <= k < spec_ci_insert(s, x).len() implies (#[trigger] spec_ci_insert(s, x)[k] == x
            || exists|j: int| 0 <= j < s.len() && spec_ci_insert(s, x)[k] == s[j]) by {
            let r = spec_ci_insert(s.drop_last(), x);
            if k < r.len() {
                assert(spec_ci_insert(s, x)[k] == r[k]);
                if r[k] != x {
                    let j = choose|j: int| 0 <= j < s.drop_last().len() && r[k] == s.drop_last()[j];
                    assert(s.drop_last()[j] == s[j]);
                }
            } else {
                assert(spec_ci_insert(s, x)[k] == s.last());
                assert(s.last() == s[s.len() - 1]);
            }
        }
    } else {
        if s.len() > 0 {
            assert forall|k: int|
                0 <= k < spec_ci_insert(s, x).len() implies (#[trigger] spec_ci_insert(s, x)[k]
                == x || exists|j: int| 0 <= j < s.len() && spec_ci_insert(s, x)[k] == s[j]) by {
                if k < s.len() {
                    assert(spec_ci_insert(s, x)[k] == s[k]);
                }
            }
        }
    }
}

/// Inserting into a sorted sequence keeps it sorted.
proof fn lemma_ci_insert_sorted(s: Seq<ChunkInfoV>, x: ChunkInfoV)
    requires
        spec_cis_sorted(s),
    ensures
        spec_cis_sorted(spec_ci_insert(s, x)),
    decreases s.len(),
{
    if s.len() == 0 {
    } else if x.start_time < s.last().start_time {
        assert(spec_cis_sorted(s.drop_last())) by {
            assert(forall|i: int, j: int|
                0 <= i <= j < s.drop_last().len() ==> s.drop_last()[i] == s[i]
                    && s.drop_last()[j] == s[j]);
        }
        lemma_ci_insert_sorted(s.drop_last(), x);
        lemma_ci_insert_elems(s.drop_last(), x);
        let r = spec_ci_insert(s.drop_last(), x);
        assert forall|i: int, j: int|
            0 <= i <= j < r.push(s.last()).len() implies #[trigger] r.push(s.last())[i].start_time
            <= #[trigger] r.push(s.last())[j].start_time by {
            if j < r.len() {
                assert(r.push(s.last())[i] == r[i] && r.push(s.last())[j] == r[j]);
            } else {
                assert(r.push(s.last())[j] == s.last());
                if i < r.len() {
                    assert(r.push(s.last())[i] == r[i]);
                    if r[i] == x {
                    } else {
                        let t = choose|t: int|
                            0 <= t < s.drop_last().len() && r[i] == s.drop_last()[t];
                        assert(s.drop_last()[t] == s[t]);
                        assert(s[t].start_time <= s.last().start_time);
                    }
                }
            }
        }
    } else {
        assert forall|i: int, j: int|
            0 <= i <= j < s.push(x).len() implies #[trigger] s.push(x)[i].start_time
            <= #[trigger] s.push(x)[j].start_time by {
            if j < s.len() {
                assert(s.push(x)[i] == s[i] && s.push(x)[j] == s[j]);
            } else {
                assert(s.push(x)[j] == x);
                if i < s.len() {
                    assert(s.push(x)[i] == s[i]);
                    assert(s[i].start_time <= s.last().start_time);
                }
            }
        }
    }
}

/// The result of the insertion sort is sorted.
pub proof fn lemma_ci_sort_sorted(s: Seq<ChunkInfoV>)
    ensures
        spec_cis_sorted(spec_ci_sort(s)),
    decreases s.len(),
{
    if s.len() > 0 {
        lemma_ci_sort_sorted(s.drop_last());
        lemma_ci_insert_sorted(spec_ci_sort(s.drop_last()), s.last());
    }
}

/// Inserts one chunk info into an already sorted vector.
fn ci_insert(v: &mut Vec<ChunkInfo>, x: ChunkInfo)
    ensures
        final(v).deep_view() == spec_ci_insert(old(v).deep_view(), x@),
    decreases old(v)@.len(),
{
    let n = v.len();
    if n > 0 && x.start_time < v[n - 1].start_time {
        let last = match v.pop() {
            Some(l) => l,
            None => {
                return ;
            },
        };
        assert(v.deep_view() =~= old(v).deep_view().drop_last());
        assert(old(v).deep_view().last() == last@);
        ci_insert(v, x);
        let ghost mid = v.deep_view();
        v.push(last);
        assert(v.deep_view() =~= mid.push(last@));
    } else {
        let ghost pre = v.deep_view();
        v.push(x);
        assert(v.deep_view() =~= pre.push(x@));
        proof {
            if n > 0 {
                assert(pre.last() == old(v).deep_view().last());
            }
        }
    }
}

/// Sorts chunk infos by start time (stable).
fn sort_chunk_infos(cis: Vec<ChunkInfo>) -> (r: Vec<ChunkInfo>)
    ensures
        r.deep_view() == spec_ci_sort(cis.deep_view()),
{
    let ghost orig = cis.deep_view();
    let total = cis.len();
    let mut rest = cis;
    let mut out: Vec<ChunkInfo> = Vec::new();
    let mut i: usize = 0;
    assert(out.deep_view() =~= Seq::<ChunkInfoV>::empty());
    assert(orig.take(0) =~= Seq::<ChunkInfoV>::empty());
    assert(orig.skip(0) =~= orig);
    while rest.len() > 0
        invariant
            i + rest@.len() == total,
            total == orig.len(),
            rest.deep_view() == orig.skip(i as int),
            out.deep_view() == spec_ci_sort(orig.take(i as int)),
        decreases rest@.len(),
    {
        let ghost pre_rest = rest.deep_view();
        let ghost prev = rest@;
        let x = rest.remove(0);
        proof {
            assert(pre_rest[0] == orig[i as int]);
            assert(x@ == pre_rest[0]);
            assert(rest@ =~= prev.drop_first());
            assert forall|j: int| 0 <= j < rest@.len() implies rest.deep_view()[j] == orig.skip(
                i as int + 1,
            )[j] by {
                assert(rest@[j] == prev[j + 1]);
                assert(pre_rest[j + 1] == prev[j + 1]@);
                assert(orig.skip(i as int)[j + 1] == orig[i as int + 1 + j]);
            }
            assert(rest.deep_view() =~= orig.skip(i as int + 1));
            assert(orig.take(i as int + 1).drop_last() =~= orig.take(i as int));
            assert(orig.take(i as int + 1).last() == orig[i as int]);
        }
        ci_insert(&mut out, x);
        i = i + 1;
    }
    assert(orig.take(i as int) =~= orig);
    out
}

// ---------------------------------------------------------------------------
// Grouping connections by topic
// ---------------------------------------------------------------------------

/// Appends a connection under its topic: to the existing group where
/// the topic is known, else as a new group at the end.
pub open spec fn spec_topic_add(
    ts: Seq<(Seq<char>, Seq<ConnectionV>)>,
    key: Seq<char>,
    c: ConnectionV,
) -> Seq<(Seq<char>, Seq<ConnectionV>)>
    decreases ts.len(),
{
    if ts.len() == 0 {
        seq![(key, seq![c])]
    } else if ts[0].0 == key {
        seq![(ts[0].0, ts[0].1.push(c))] + ts.drop_first()
    } else {
        seq![ts[0]] + spec_topic_add(ts.drop_first(), key, c)
    }
}

proof fn lemma_topic_add_found(
    ts: Seq<(Seq<char>, Seq<ConnectionV>)>,
    key: Seq<char>,
    c: ConnectionV,
    i: int,
)
    requires
        0 <= i < ts.len(),
        ts[i].0 == key,
        forall|j: int| 0 <= j < i ==> (#[trigger] ts[j]).0 != key,
    ensures
        spec_topic_add(ts, key, c) == ts.update(i, (ts[i].0, ts[i].1.push(c))),
    decreases i,
{
    if i == 0 {
        assert(seq![(ts[0].0, ts[0].1.push(c))] + ts.drop_first() =~= ts.update(
            0,
            (ts[0].0, ts[0].1.push(c)),
        ));
    } else {
        assert(forall|j: int|
            0 <= j < ts.drop_first().len() ==> ts.drop_first()[j] == ts[j + 1]);
        lemma_topic_add_found(ts.drop_first(), key, c, i - 1);
        assert(seq![ts[0]] + ts.drop_first().update(
            i - 1,
            (ts[i].0, ts[i].1.push(c)),
        ) =~= ts.update(i, (ts[i].0, ts[i].1.push(c))));
    }
}

proof fn lemma_topic_add_absent(
    ts: Seq<(Seq<char>, Seq<ConnectionV>)>,
    key: Seq<char>,
    c: ConnectionV,
)
    requires
        forall|j: int| 0 <= j < ts.len() ==> (#[trigger] ts[j]).0 != key,
    ensures
        spec_topic_add(ts, key, c) == ts.push((key, seq![c])),
    decreases ts.len(),
{
    if ts.len() == 0 {
        assert(seq![(key, seq![c])] =~= ts.push((key, seq![c])));
    } else {
        assert(forall|j: int|
            0 <= j < ts.drop_first().len() ==> ts.drop_first()[j] == ts[j + 1]);
        lemma_topic_add_absent(ts.drop_first(), key, c);
        assert(seq![ts[0]] + ts.drop_first().push((key, seq![c])) =~= ts.push((key, seq![c])));
    }
}

/// Adds a connection to its topic group.
fn add_connection(topics: &mut Vec<(String, Vec<Connection>)>, c: Connection)
    ensures
        final(topics).deep_view() == spec_topic_add(old(topics).deep_view(), c@.topic, c@),
{
    let ghost pre = topics.deep_view();
    let ghost cv = c@;
    let n = topics.len();
    let mut i: usize = 0;
    while i < n
        invariant
            0 <= i <= n,
            n == topics@.len(),
            pre == topics.deep_view(),
            pre == old(topics).deep_view(),
            cv == c@,
            forall|j: int| 0 <= j < i ==> (#[trigger] pre[j]).0 != cv.topic,
        decreases n - i,
    {
        assert(pre[i as int] == topics@[i as int].deep_view());
        if str_eq(topics[i].0.as_str(), c.topic.as_str()) {
            let mut entry = topics.remove(i);
            let ghost entry_pre = entry.deep_view();
            entry.1.push(c);
            assert(entry.deep_view().1 =~= entry_pre.1.push(cv));
            assert(entry.deep_view().0 == entry_pre.0);
            topics.insert(i, entry);
            proof {
                lemma_topic_add_found(pre, cv.topic, cv, i as int);
                assert(topics.deep_view() =~= pre.update(i as int, (pre[i as int].0, pre[
                    i as int].1.push(cv))));
            }
            return ;
        }
        i = i + 1;
    }
    let key = c.topic.clone();
    let mut group: Vec<Connection> = Vec::new();
    group.push(c);
    assert(group.deep_view() =~= seq![cv]);
    topics.push((key, group));
    proof {
        lemma_topic_add_absent(pre, cv.topic, cv);
        assert(topics.deep_view() =~= pre.push((cv.topic, seq![cv])));
    }
}

/// Every grouped connection carries its parsed data payload.
pub open spec fn topics_data_some(ts: Seq<(Seq<char>, Seq<ConnectionV>)>) -> bool {
    forall|i: int|
        0 <= i < ts.len() ==> forall|j: int|
            0 <= j < (#[trigger] ts[i]).1.len() ==> (#[trigger] ts[i].1[j]).data is Some
}

proof fn lemma_topic_add_data_some(
    ts: Seq<(Seq<char>, Seq<ConnectionV>)>,
    key: Seq<char>,
    c: ConnectionV,
)
    requires
        topics_data_some(ts),
        c.data is Some,
    ensures
        topics_data_some(spec_topic_add(ts, key, c)),
    decreases ts.len(),
{
    let r = spec_topic_add(ts, key, c);
    if ts.len() == 0 {
        assert(r[0].1 == seq![c]);
        assert(forall|j: int| 0 <= j < r[0].1.len() ==> r[0].1[j] == c);
    } else if ts[0].0 == key {
        assert forall|i: int, j: int|
            0 <= i < r.len() && 0 <= j < r[i].1.len() implies (#[trigger] r[i].1[j]).data
            is Some by {
            if i == 0 {
                if j < ts[0].1.len() {
                    assert(r[0].1[j] == ts[0].1[j]);
                } else {
                    assert(r[0].1[j] == c);
                }
            } else {
                assert(r[i] == ts[i]);
            }
        }
    } else {
        assert(forall|j: int|
            0 <= j < ts.drop_first().len() ==> ts.drop_first()[j] == ts[j + 1]);
        lemma_topic_add_data_some(ts.drop_first(), key, c);
        let rr = spec_topic_add(ts.drop_first(), key, c);
        assert forall|i: int, j: int|
            0 <= i < r.len() && 0 <= j < r[i].1.len() implies (#[trigger] r[i].1[j]).data
            is Some by {
            if i == 0 {
                assert(r[0] == ts[0]);
            } else {
                assert(r[i] == rr[i - 1]);
            }
        }
    }
}

// ---------------------------------------------------------------------------
// Folding records into the index
// ---------------------------------------------------------------------------

/// Folds the tail records into topic groups and chunk infos; any record
/// kind other than `Connection` or `ChunkInfo` is an error.
pub open spec fn spec_meta_fold(records: Seq<(RecordV, Seq<u8>)>) -> Result<
    (Seq<(Seq<char>, Seq<ConnectionV>)>, Seq<ChunkInfoV>),
    RosError,
>
    decreases records.len(),
{
    if records.len() == 0 {
        Ok((Seq::empty(), Seq::empty()))
    } else {
        match spec_meta_fold(records.drop_last()) {
            Err(e) => Err(e),
            Ok((topics, cis)) => match records.last().0 {
                RecordV::Connection(cv) => match spec_connection_data(records.last().1) {
                    Err(e) => Err(e),
                    Ok(cd) => Ok(
                        (
                            spec_topic_add(
                                topics,
                                cv.topic,
                                ConnectionV {
                                    data_pos: cv.data_pos,
                                    conn: cv.conn,
                                    topic: cv.topic,
                                    data: Some(cd),
                                },
                            ),
                            cis,
                        ),
                    ),
                },
                RecordV::ChunkInfo(civ) => match spec_chunk_info_entries(
                    civ.count,
                    records.last().1,
                ) {
                    Err(e) => Err(e),
                    Ok(es) => Ok(
                        (
                            topics,
                            cis.push(
                                ChunkInfoV {
                                    data_pos: civ.data_pos,
                                    ver: civ.ver,
                                    chunk_pos: civ.chunk_pos,
                                    start_time: civ.start_time,
                                    end_time: civ.end_time,
                                    count: civ.count,
                                    entries: es,
                                },
                            ),
                        ),
                    ),
                },
                _ => Err(RosError::InvalidHeader),
            },
        }
    }
}

proof fn lemma_meta_fold_err_prefix(records: Seq<(RecordV, Seq<u8>)>, k: int)
    requires
        0 <= k <= records.len(),
        spec_meta_fold(records.take(k)) is Err,
    ensures
        spec_meta_fold(records) == spec_meta_fold(records.take(k)),
    decreases records.len() - k,
{
    if k == records.len() {
        assert(records.take(k) =~= records);
    } else {
        assert(records.take(k + 1).drop_last() =~= records.take(k));
        lemma_meta_fold_err_prefix(records, k + 1);
    }
}

/// What [`Meta::try_new_from_bytes`] yields for a tail buffer: the
/// records folded into topic groups and chunk infos, the chunk infos
/// sorted by start time, and the aggregates computed. A total count
/// beyond `u64::MAX` is rejected.
pub open spec fn spec_meta(b: Seq<u8>) -> Result<MetaV, RosError> {
    match spec_iterate_records(b, 0) {
        Err(e) => Err(e),
        Ok(rs) => match spec_meta_fold(rs) {
            Err(e) => Err(e),
            Ok((topics, cis)) => {
                let sorted = spec_ci_sort(cis);
                if spec_sum_counts(sorted) > u64::MAX {
                    Err(RosError::InvalidRecord)
                } else {
                    Ok(
                        MetaV {
                            topic_to_connections: topics,
                            chunk_infos: sorted,
                            start_ts: spec_min_start(sorted),
                            end_ts: spec_max_end(sorted),
                            num_msgs: spec_sum_counts(sorted) as u64,
                        },
                    )
                }
            },
        },
    }
}


proof fn lemma_sum_counts_prefix(cis: Seq<ChunkInfoV>, j: int)
    requires
        0 <= j <= cis.len(),
    ensures
        spec_sum_counts(cis.take(j)) <= spec_sum_counts(cis),
    decreases cis.len() - j,
{
    if j < cis.len() {
        lemma_sum_counts_prefix(cis, j + 1);
        assert(cis.take(j + 1).drop_last() =~= cis.take(j));
        assert(cis.take(j + 1).last() == cis[j]);
    } else {
        assert(cis.take(j) =~= cis);
    }
}

/// Sums the per-chunk counts; `None` where the total does not fit.
fn sum_counts(cis: &Vec<ChunkInfo>) -> (r: Option<u64>)
    ensures
        match r {
            Some(t) => t as int == spec_sum_counts(cis.deep_view()),
            None => spec_sum_counts(cis.deep_view()) > u64::MAX,
        },
{
    let ghost all = cis.deep_view();
    let n = cis.len();
    let mut acc: u64 = 0;
    let mut i: usize = 0;
    assert(all.take(0) =~= Seq::<ChunkInfoV>::empty());
    while i < n
        invariant
            0 <= i <= n,
            n == cis@.len(),
            all == cis.deep_view(),
            acc as int == spec_sum_counts(all.take(i as int)),
        decreases n - i,
    {
        proof {
            assert(all.take(i as int + 1).drop_last() =~= all.take(i as int));
            assert(all.take(i as int + 1).last() == all[i as int]);
            assert(all[i as int] == cis@[i as int]@);
        }
        match acc.checked_add(cis[i].count as u64) {
            Some(v) => {
                acc = v;
            },
            None => {
                proof {
                    lemma_sum_counts_prefix(all, i as int + 1);
                }
                return None;
            },
        }
        i = i + 1;
    }
    assert(all.take(n as int) =~= all);
    Some(acc)
}

/// The smallest chunk start time (`u64::MAX` where there are none).
fn min_start(cis: &Vec<ChunkInfo>) -> (r: u64)
    ensures
        r == spec_min_start(cis.deep_view()),
{
    let ghost all = cis.deep_view();
    let n = cis.len();
    let mut acc: u64 = u64::MAX;
    let mut i: usize = 0;
    assert(all.take(0) =~= Seq::<ChunkInfoV>::empty());
    while i < n
        invariant
            0 <= i <= n,
            n == cis@.len(),
            all == cis.deep_view(),
            acc == spec_min_start(all.take(i as int)),
        decreases n - i,
    {
        proof {
            assert(all.take(i as int + 1).drop_last() =~= all.take(i as int));
            assert(all.take(i as int + 1).last() == all[i as int]);
            assert(all[i as int] == cis@[i as int]@);
        }
        if cis[i].start_time < acc {
            acc = cis[i].start_time;
        }
        i = i + 1;
    }
    assert(all.take(n as int) =~= all);
    acc
}

/// The largest chunk end time (`0` where there are none).
fn max_end(cis: &Vec<ChunkInfo>) -> (r: u64)
    ensures
        r == spec_max_end(cis.deep_view()),
{
    let ghost all = cis.deep_view();
    let n = cis.len();
    let mut acc: u64 = 0;
    let mut i: usize = 0;
    assert(all.take(0) =~= Seq::<ChunkInfoV>::empty());
    while i < n
        invariant
            0 <= i <= n,
            n == cis@.len(),
            all == cis.deep_view(),
            acc == spec_max_end(all.take(i as int)),
        decreases n - i,
    {
        proof {
            assert(all.take(i as int + 1).drop_last() =~= all.take(i as int));
            assert(all.take(i as int + 1).last() == all[i as int]);
            assert(all[i as int] == cis@[i as int]@);
        }
        if cis[i].end_time > acc {
            acc = cis[i].end_time;
        }
        i = i + 1;
    }
    assert(all.take(n as int) =~= all);
    acc
}

impl Meta {
    /// Parses the tail buffer of a bag: accepts only `Connection` and
    /// `ChunkInfo` records, parses their payloads, sorts the chunk
    /// infos by start time, and memoises count and time range.
    pub fn try_new_from_bytes(bytes: &[u8]) -> (r: Result<Meta, RosError>)
        ensures
            match r {
                Ok(m) => spec_meta(bytes@) == Ok::<MetaV, RosError>(m@) && meta_wf(m@),
                Err(e) => spec_meta(bytes@) == Err::<MetaV, RosError>(e),
            },
    {
        let records = match iterate_records(bytes, 0) {
            Err(e) => {
                return Err(e);
            },
            Ok(rs) => rs,
        };
        let ghost rsv = records.deep_view();
        let total = records.len();
        let mut topics: Vec<(String, Vec<Connection>)> = Vec::new();
        let mut cis: Vec<ChunkInfo> = Vec::new();
        let mut rest = records;
        let mut i: usize = 0;
        assert(rsv.take(0) =~= Seq::<(RecordV, Seq<u8>)>::empty());
        assert(topics.deep_view() =~= Seq::<(Seq<char>, Seq<ConnectionV>)>::empty());
        assert(cis.deep_view() =~= Seq::<ChunkInfoV>::empty());
        assert(rsv.skip(0) =~= rsv);
        while rest.len() > 0
            invariant
                i + rest@.len() == total,
                total == rsv.len(),
                spec_iterate_records(bytes@, 0) == Ok::<Seq<(RecordV, Seq<u8>)>, RosError>(rsv),
                rest.deep_view() == rsv.skip(i as int),
                spec_meta_fold(rsv.take(i as int)) == Ok::<
                    (Seq<(Seq<char>, Seq<ConnectionV>)>, Seq<ChunkInfoV>),
                    RosError,
                >((topics.deep_view(), cis.deep_view())),
            decreases rest@.len(),
        {
            let ghost pre_rest = rest.deep_view();
            let ghost prev = rest@;
            let (record, data) = rest.remove(0);
            proof {
                assert(pre_rest[0] == rsv[i as int]);
                assert(rest@ =~= prev.drop_first());
                assert forall|j: int|
                    0 <= j < rest@.len() implies rest.deep_view()[j] == rsv.skip(
                    i as int + 1,
                )[j] by {
                    assert(rest@[j] == prev[j + 1]);
                    assert(pre_rest[j + 1] == prev[j + 1].deep_view());
                    assert(rsv.skip(i as int)[j + 1] == rsv[i as int + 1 + j]);
                }
                assert(rest.deep_view() =~= rsv.skip(i as int + 1));
                assert(rsv.take(i as int + 1).drop_last() =~= rsv.take(i as int));
                assert(rsv.take(i as int + 1).last() == rsv[i as int]);
                assert((record@, data@) == rsv[i as int]);
            }
            match record {
                Record::Connection(mut con) => {
                    match crate::records::ConnectionData::try_new(data.as_slice()) {
                        Err(e) => {
                            proof {
                                lemma_meta_fold_err_prefix(rsv, i as int + 1);
                                assert(spec_meta_fold(rsv) == Err::<
                                    (Seq<(Seq<char>, Seq<ConnectionV>)>, Seq<ChunkInfoV>),
                                    RosError,
                                >(e));
                            }
                            return Err(e);
                        },
                        Ok(cd) => {
                            con.data = Some(cd);
                            add_connection(&mut topics, con);
                        },
                    }
                },
                Record::ChunkInfo(mut ci) => {
                    match ci.new_chunk_info_data_entries_from_bytes(data.as_slice()) {
                        Err(e) => {
                            proof {
                                lemma_meta_fold_err_prefix(rsv, i as int + 1);
                                assert(spec_meta_fold(rsv) == Err::<
                                    (Seq<(Seq<char>, Seq<ConnectionV>)>, Seq<ChunkInfoV>),
                                    RosError,
                                >(e));
                            }
                            return Err(e);
                        },
                        Ok(entries) => {
                            ci.entries = entries;
                            let ghost pre_cis = cis.deep_view();
                            cis.push(ci);
                            assert(cis.deep_view() =~= pre_cis.push(cis@.last()@));
                        },
                    }
                },
                _ => {
                    proof {
                        lemma_meta_fold_err_prefix(rsv, i as int + 1);
                        assert(spec_meta_fold(rsv) == Err::<
                            (Seq<(Seq<char>, Seq<ConnectionV>)>, Seq<ChunkInfoV>),
                            RosError,
                        >(RosError::InvalidHeader));
                    }
                    return Err(RosError::InvalidHeader);
                },
            }
            i = i + 1;
        }
        assert(rsv.take(i as int) =~= rsv);
        let sorted = sort_chunk_infos(cis);
        let num_msgs = match sum_counts(&sorted) {
            None => {
                return Err(RosError::InvalidRecord);
            },
            Some(t) => t,
        };
        let start_ts = min_start(&sorted);
        let end_ts = max_end(&sorted);
        let m = Meta { topic_to_connections: topics, chunk_infos: sorted, start_ts, end_ts, num_msgs };
        proof {
            lemma_ci_sort_sorted(cis.deep_view());
            lemma_meta_fold_data_some(rsv);
        }
        Ok(m)
    }

    /// Earliest chunk start time of the bag (`u64::MAX` when empty).
    pub fn start_time(&self) -> (r: u64)
        ensures
            r == self@.start_ts,
            meta_wf(self@) ==> r == spec_min_start(self@.chunk_infos),
    {
        self.start_ts
    }

    /// Latest chunk end time of the bag (`0` when empty).
    pub fn end_time(&self) -> (r: u64)
        ensures
            r == self@.end_ts,
            meta_wf(self@) ==> r == spec_max_end(self@.chunk_infos),
    {
        self.end_ts
    }

    /// Total number of messages: the sum of all chunk-info counts.
    pub fn num_messages(&self) -> (r: u64)
        ensures
            r == self@.num_msgs,
            meta_wf(self@) ==> r as int == spec_sum_counts(self@.chunk_infos),
    {
        self.num_msgs
    }

    /// The connections of the bag, grouped by topic.
    pub fn connections_by_topic(&self) -> (r: &Vec<(String, Vec<Connection>)>)
        ensures
            r.deep_view() == self@.topic_to_connections,
    {
        &self.topic_to_connections
    }

    /// The topic names, in first-seen order.
    pub fn topics(&self) -> (r: Vec<String>)
        ensures
            r.deep_view().len() == self@.topic_to_connections.len(),
            forall|i: int|
                0 <= i < r.deep_view().len() ==> r.deep_view()[i]
                    == self@.topic_to_connections[i].0,
    {
        let n = self.topic_to_connections.len();
        let mut out: Vec<String> = Vec::new();
        let mut i: usize = 0;
        while i < n
            invariant
                0 <= i <= n,
                n == self.topic_to_connections@.len(),
                out@.len() == i,
                forall|j: int|
                    0 <= j < i ==> out@[j]@ == (#[trigger] self.topic_to_connections@[j]).0@,
            decreases n - i,
        {
            out.push(self.topic_to_connections[i].0.clone());
            i = i + 1;
        }
        proof {
            assert forall|j: int|
                0 <= j < n implies out.deep_view()[j] == self@.topic_to_connections[j].0 by {
                assert(self@.topic_to_connections[j] == self.topic_to_connections@[
                    j].deep_view());
            }
        }
        out
    }
}

proof fn lemma_meta_fold_data_some(records: Seq<(RecordV, Seq<u8>)>)
    ensures
        match spec_meta_fold(records) {
            Ok(r) => topics_data_some(r.0),
            Err(_) => true,
        },
    decreases records.len(),
{
    if records.len() > 0 {
        lemma_meta_fold_data_some(records.drop_last());
        match spec_meta_fold(records.drop_last()) {
            Ok((topics, cis)) => {
                match records.last().0 {
                    RecordV::Connection(cv) => {
                        match spec_connection_data(records.last().1) {
                            Ok(cd) => {
                                lemma_topic_add_data_some(
                                    topics,
                                    cv.topic,
                                    ConnectionV {
                                        data_pos: cv.data_pos,
                                        conn: cv.conn,
                                        topic: cv.topic,
                                        data: Some(cd),
                                    },
                                );
                            },
                            Err(_) => {},
                        }
                    },
                    _ => {},
                }
            },
            Err(_) => {},
        }
    }
}

// ---------------------------------------------------------------------------
// Topic and time-window filtering
// ---------------------------------------------------------------------------

/// The connection group of the first entry named `name`.
pub open spec fn spec_assoc_topic_get(
    ts: Seq<(Seq<char>, Seq<ConnectionV>)>,
    name: Seq<char>,
) -> Option<Seq<ConnectionV>>
    decreases ts.len(),
{
    if ts.len() == 0 {
        None
    } else if ts[0].0 == name {
        Some(ts[0].1)
    } else {
        spec_assoc_topic_get(ts.drop_first(), name)
    }
}

/// The connection ids of a group.
pub open spec fn spec_conn_ids(cs: Seq<ConnectionV>) -> Seq<u32> {
    Seq::new(cs.len(), |i: int| cs[i].conn)
}

/// The connection ids referenced by any of the given topics; topics the
/// bag does not carry are silently skipped.
pub open spec fn spec_conns_for_topics(
    ts: Seq<(Seq<char>, Seq<ConnectionV>)>,
    names: Seq<Seq<char>>,
) -> Seq<u32>
    decreases names.len(),
{
    if names.len() == 0 {
        Seq::empty()
    } else {
        spec_conns_for_topics(ts, names.drop_last()) + (match spec_assoc_topic_get(
            ts,
            names.last(),
        ) {
            Some(cs) => spec_conn_ids(cs),
            None => Seq::empty(),
        })
    }
}

/// A chunk has a message of one of the given connections.
pub open spec fn spec_entries_match(entries: Seq<crate::records::ChunkInfoDataEntry>, conns: Seq<u32>) -> bool {
    exists|i: int| 0 <= i < entries.len() && conns.contains((#[trigger] entries[i]).conn)
}

/// Whether a chunk survives the filters: its entry set intersects the
/// connection filter (when given), and its time range overlaps the
/// window (when given).
pub open spec fn spec_retained(
    ci: ChunkInfoV,
    conns: Option<Seq<u32>>,
    start: Option<u64>,
    end: Option<u64>,
) -> bool {
    &&& match conns {
        None => true,
        Some(cs) => spec_entries_match(ci.entries, cs),
    }
    &&& match start {
        None => true,
        Some(s) => s <= ci.end_time,
    }
    &&& match end {
        None => true,
        Some(e) => e >= ci.start_time,
    }
}

/// The chunk positions of the retained chunks, in index order.
pub open spec fn spec_filter_chunks(
    cis: Seq<ChunkInfoV>,
    conns: Option<Seq<u32>>,
    start: Option<u64>,
    end: Option<u64>,
) -> Seq<u32>
    decreases cis.len(),
{
    if cis.len() == 0 {
        Seq::empty()
    } else {
        spec_filter_chunks(cis.drop_last(), conns, start, end) + (if spec_retained(
            cis.last(),
            conns,
            start,
            end,
        ) {
            seq![cis.last().chunk_pos]
        } else {
            Seq::empty()
        })
    }
}

/// A window start no later than another (an absent bound is widest).
pub open spec fn spec_start_wider(wide: Option<u64>, narrow: Option<u64>) -> bool {
    match (wide, narrow) {
        (None, _) => true,
        (Some(a), Some(b)) => a <= b,
        (Some(_), None) => false,
    }
}

/// A window end no earlier than another (an absent bound is widest).
pub open spec fn spec_end_wider(wide: Option<u64>, narrow: Option<u64>) -> bool {
    match (wide, narrow) {
        (None, _) => true,
        (Some(a), Some(b)) => a >= b,
        (Some(_), None) => false,
    }
}

/// Narrowing the time window never returns a chunk that a wider window
/// excludes: every chunk position of the narrow filter result also
/// stands in the wide filter result.
pub proof fn lemma_filter_chunks_monotone(
    cis: Seq<ChunkInfoV>,
    conns: Option<Seq<u32>>,
    ws: Option<u64>,
    we: Option<u64>,
    ns: Option<u64>,
    ne: Option<u64>,
)
    requires
        spec_start_wider(ws, ns),
        spec_end_wider(we, ne),
    ensures
        forall|p: u32|
            spec_filter_chunks(cis, conns, ns, ne).contains(p)
                ==> spec_filter_chunks(cis, conns, ws, we).contains(p),
    decreases cis.len(),
{
    if cis.len() > 0 {
        lemma_filter_chunks_monotone(cis.drop_last(), conns, ws, we, ns, ne);
        let narrow = spec_filter_chunks(cis, conns, ns, ne);
        let wide = spec_filter_chunks(cis, conns, ws, we);
        let narrow0 = spec_filter_chunks(cis.drop_last(), conns, ns, ne);
        let wide0 = spec_filter_chunks(cis.drop_last(), conns, ws, we);
        assert forall|p: u32| narrow.contains(p) implies wide.contains(p) by {
            let k = choose|k: int| 0 <= k < narrow.len() && narrow[k] == p;
            if k < narrow0.len() {
                assert(narrow0[k] == p);
                assert(narrow0.contains(p));
                assert(wide0.contains(p));
                let t = choose|t: int| 0 <= t < wide0.len() && wide0[t] == p;
                assert(wide[t] == p);
                assert(wide.contains(p));
            } else {
                assert(spec_retained(cis.last(), conns, ns, ne));
                assert(p == cis.last().chunk_pos);
                assert(spec_retained(cis.last(), conns, ws, we));
                assert(wide[wide.len() - 1] == p);
                assert(wide.contains(p));
            }
        }
    }
}

/// Whether a vector holds a value.
fn vec_u32_contains(v: &Vec<u32>, x: u32) -> (r: bool)
    ensures
        r == v@.contains(x),
{
    let n = v.len();
    let mut i: usize = 0;
    while i < n
        invariant
            0 <= i <= n,
            n == v@.len(),
            forall|j: int| 0 <= j < i ==> v@[j] != x,
        decreases n - i,
    {
        if v[i] == x {
            return true;
        }
        i = i + 1;
    }
    assert(!v@.contains(x));
    false
}

fn entries_match(entries: &Vec<crate::records::ChunkInfoDataEntry>, conns: &Vec<u32>) -> (r: bool)
    ensures
        r == spec_entries_match(entries@, conns@),
{
    let n = entries.len();
    let mut i: usize = 0;
    while i < n
        invariant
            0 <= i <= n,
            n == entries@.len(),
            forall|j: int| 0 <= j < i ==> !conns@.contains((#[trigger] entries@[j]).conn),
        decreases n - i,
    {
        if vec_u32_contains(conns, entries[i].conn) {
            return true;
        }
        i = i + 1;
    }
    false
}

impl Meta {
    /// Collects the connection ids of the given topics.
    pub fn conns_for_topics(&self, topics: &Vec<String>) -> (r: Vec<u32>)
        ensures
            r@ == spec_conns_for_topics(self@.topic_to_connections, topics.deep_view()),
    {
        let ghost tv = self@.topic_to_connections;
        let ghost names = topics.deep_view();
        let n = topics.len();
        let mut out: Vec<u32> = Vec::new();
        let mut i: usize = 0;
        assert(names.take(0) =~= Seq::<Seq<char>>::empty());
        assert(out@ =~= spec_conns_for_topics(tv, names.take(0)));
        while i < n
            invariant
                0 <= i <= n,
                n == topics@.len(),
                tv == self@.topic_to_connections,
                names == topics.deep_view(),
                out@ == spec_conns_for_topics(tv, names.take(i as int)),
            decreases n - i,
        {
            proof {
                assert(names.take(i as int + 1).drop_last() =~= names.take(i as int));
                assert(names.take(i as int + 1).last() == names[i as int]);
                assert(names[i as int] == topics@[i as int]@);
            }
            let ghost pre = out@;
            match self.find_topic_group(topics[i].as_str()) {
                None => {
                    assert(out@ =~= pre + Seq::<u32>::empty());
                },
                Some(gi) => {
                    let conns = &self.topic_to_connections[gi].1;
                    let ghost cs = self@.topic_to_connections[gi as int].1;
                    let cn = conns.len();
                    let mut j: usize = 0;
                    assert(cs == self.topic_to_connections@[gi as int].deep_view().1);
                    while j < cn
                        invariant
                            0 <= j <= cn,
                            cn == conns@.len(),
                            cn == cs.len(),
                            forall|t: int| 0 <= t < cn ==> cs[t] == (#[trigger] conns@[t])@,
                            out@ == pre + spec_conn_ids(cs).take(j as int),
                        decreases cn - j,
                    {
                        out.push(conns[j].conn);
                        assert(out@ =~= pre + spec_conn_ids(cs).take(j as int + 1));
                        j = j + 1;
                    }
                    assert(spec_conn_ids(cs).take(cn as int) =~= spec_conn_ids(cs));
                },
            }
            i = i + 1;
        }
        assert(names.take(n as int) =~= names);
        out
    }

    /// Index of the group whose topic is `name`, if any.
    fn find_topic_group(&self, name: &str) -> (r: Option<usize>)
        ensures
            match r {
                Some(i) => i < self@.topic_to_connections.len() && spec_assoc_topic_get(
                    self@.topic_to_connections,
                    name@,
                ) == Some(self@.topic_to_connections[i as int].1),
                None => spec_assoc_topic_get(self@.topic_to_connections, name@) is None,
            },
    {
        let ghost tv = self@.topic_to_connections;
        let n = self.topic_to_connections.len();
        let mut i: usize = 0;
        assert(tv.skip(0) =~= tv);
        while i < n
            invariant
                0 <= i <= n,
                n == self.topic_to_connections@.len(),
                n == tv.len(),
                tv == self@.topic_to_connections,
                spec_assoc_topic_get(tv, name@) == spec_assoc_topic_get(
                    tv.skip(i as int),
                    name@,
                ),
            decreases n - i,
        {
            assert(tv.skip(i as int)[0] == tv[i as int]);
            assert(tv[i as int] == self.topic_to_connections@[i as int].deep_view());
            if str_eq(self.topic_to_connections[i].0.as_str(), name) {
                return Some(i);
            }
            assert(tv.skip(i as int).drop_first() =~= tv.skip(i as int + 1));
            i = i + 1;
        }
        assert(tv.skip(n as int) =~= Seq::<(Seq<char>, Seq<ConnectionV>)>::empty());
        None
    }

    /// Filters chunks by topic set and time window, returning chunk
    /// positions in start-time order. Topics the bag does not carry are
    /// silently skipped; a chunk survives when its connections meet the
    /// filter and its time range overlaps `[start_time, end_time]`.
    pub fn filter_chunks(
        &self,
        topics: Option<&Vec<String>>,
        start_time: Option<u64>,
        end_time: Option<u64>,
    ) -> (r: Result<Vec<u32>, RosError>)
        ensures
            match r {
                Ok(v) => v@ == spec_filter_chunks(
                    self@.chunk_infos,
                    match topics {
                        Some(ts) => Some(
                            spec_conns_for_topics(self@.topic_to_connections, ts.deep_view()),
                        ),
                        None => None,
                    },
                    start_time,
                    end_time,
                ),
                Err(_) => false,
            },
    {
        let ghost cv = self@.chunk_infos;
        let ghost conns_v: Option<Seq<u32>> = match topics {
            Some(ts) => Some(
                spec_conns_for_topics(self@.topic_to_connections, ts.deep_view()),
            ),
            None => None,
        };
        let conns: Option<Vec<u32>> = match topics {
            Some(ts) => Some(self.conns_for_topics(ts)),
            None => None,
        };
        let n = self.chunk_infos.len();
        let mut out: Vec<u32> = Vec::new();
        let mut i: usize = 0;
        assert(cv.take(0) =~= Seq::<ChunkInfoV>::empty());
        while i < n
            invariant
                0 <= i <= n,
                n == self.chunk_infos@.len(),
                cv == self@.chunk_infos,
                (match (&conns, conns_v) {
                    (Some(c), Some(cv2)) => c@ == cv2,
                    (None, None) => true,
                    _ => false,
                }),
                out@ == spec_filter_chunks(cv.take(i as int), conns_v, start_time, end_time),
            decreases n - i,
        {
            proof {
                assert(cv.take(i as int + 1).drop_last() =~= cv.take(i as int));
                assert(cv.take(i as int + 1).last() == cv[i as int]);
                assert(cv[i as int] == self.chunk_infos@[i as int].deep_view());
            }
            let ci = &self.chunk_infos[i];
            let conn_ok = match &conns {
                None => true,
                Some(cs) => entries_match(&ci.entries, cs),
            };
            let start_ok = match start_time {
                None => true,
                Some(s) => s <= ci.end_time,
            };
            let end_ok = match end_time {
                None => true,
                Some(e) => e >= ci.start_time,
            };
            let ghost pre = out@;
            if conn_ok && start_ok && end_ok {
                out.push(ci.chunk_pos);
                assert(out@ =~= pre + seq![cv[i as int].chunk_pos]);
            } else {
                assert(out@ =~= pre + Seq::<u32>::empty());
            }
            i = i + 1;
        }
        assert(cv.take(n as int) =~= cv);
        Ok(out)
    }
}

// ---------------------------------------------------------------------------
// Compiling the connection schemas
// ---------------------------------------------------------------------------

/// All connections of all topic groups, in group order.
pub open spec fn spec_all_connections(ts: Seq<(Seq<char>, Seq<ConnectionV>)>) -> Seq<ConnectionV>
    decreases ts.len(),
{
    if ts.len() == 0 {
        Seq::empty()
    } else {
        spec_all_connections(ts.drop_last()) + ts.last().1
    }
}

/// Inserts a connection into a sequence sorted by id, after equal ids.
pub open spec fn spec_conn_insert(s: Seq<ConnectionV>, x: ConnectionV) -> Seq<ConnectionV>
    decreases s.len(),
{
    if s.len() == 0 {
        seq![x]
    } else if x.conn < s.last().conn {
        spec_conn_insert(s.drop_last(), x).push(s.last())
    } else {
        s.push(x)
    }
}

/// Stable insertion sort by connection id.
pub open spec fn spec_conn_sort(s: Seq<ConnectionV>) -> Seq<ConnectionV>
    decreases s.len(),
{
    if s.len() == 0 {
        Seq::empty()
    } else {
        spec_conn_insert(spec_conn_sort(s.drop_last()), s.last())
    }
}

/// Binds `conn` to `m`, replacing an earlier binding of the same id.
pub open spec fn spec_ctm_add(
    s: Seq<(u32, crate::data_type::MsgTypeV)>,
    conn: u32,
    m: crate::data_type::MsgTypeV,
) -> Seq<(u32, crate::data_type::MsgTypeV)>
    decreases s.len(),
{
    if s.len() == 0 {
        seq![(conn, m)]
    } else if s[0].0 == conn {
        seq![(conn, m)] + s.drop_first()
    } else {
        seq![s[0]] + spec_ctm_add(s.drop_first(), conn, m)
    }
}

proof fn lemma_ctm_add_found(
    s: Seq<(u32, crate::data_type::MsgTypeV)>,
    conn: u32,
    m: crate::data_type::MsgTypeV,
    i: int,
)
    requires
        0 <= i < s.len(),
        s[i].0 == conn,
        forall|j: int| 0 <= j < i ==> (#[trigger] s[j]).0 != conn,
    ensures
        spec_ctm_add(s, conn, m) == s.update(i, (conn, m)),
    decreases i,
{
    if i == 0 {
        assert(seq![(conn, m)] + s.drop_first() =~= s.update(0, (conn, m)));
    } else {
        assert(forall|j: int| 0 <= j < s.drop_first().len() ==> s.drop_first()[j] == s[j + 1]);
        lemma_ctm_add_found(s.drop_first(), conn, m, i - 1);
        assert(seq![s[0]] + s.drop_first().update(i - 1, (conn, m)) =~= s.update(i, (conn, m)));
    }
}

proof fn lemma_ctm_add_absent(
    s: Seq<(u32, crate::data_type::MsgTypeV)>,
    conn: u32,
    m: crate::data_type::MsgTypeV,
)
    requires
        forall|j: int| 0 <= j < s.len() ==> (#[trigger] s[j]).0 != conn,
    ensures
        spec_ctm_add(s, conn, m) == s.push((conn, m)),
    decreases s.len(),
{
    if s.len() == 0 {
        assert(seq![(conn, m)] =~= s.push((conn, m)));
    } else {
        assert(forall|j: int| 0 <= j < s.drop_first().len() ==> s.drop_first()[j] == s[j + 1]);
        lemma_ctm_add_absent(s.drop_first(), conn, m);
        assert(seq![s[0]] + s.drop_first().push((conn, m)) =~= s.push((conn, m)));
    }
}

/// All bound schemas are well formed.
pub open spec fn ctm_wf(s: Seq<(u32, crate::data_type::MsgTypeV)>) -> bool {
    forall|i: int| 0 <= i < s.len() ==> crate::data_type::msg_wf((#[trigger] s[i]).1)
}

proof fn lemma_ctm_add_wf(
    s: Seq<(u32, crate::data_type::MsgTypeV)>,
    conn: u32,
    m: crate::data_type::MsgTypeV,
)
    requires
        ctm_wf(s),
        crate::data_type::msg_wf(m),
    ensures
        ctm_wf(spec_ctm_add(s, conn, m)),
    decreases s.len(),
{
    let r = spec_ctm_add(s, conn, m);
    if s.len() == 0 {
        assert(forall|i: int| 0 <= i < r.len() ==> r[i] == (conn, m));
    } else if s[0].0 == conn {
        assert forall|i: int| 0 <= i < r.len() implies crate::data_type::msg_wf(
            (#[trigger] r[i]).1,
        ) by {
            if i == 0 {
                assert(r[0] == (conn, m));
            } else {
                assert(r[i] == s[i]);
            }
        }
    } else {
        assert(forall|j: int| 0 <= j < s.drop_first().len() ==> s.drop_first()[j] == s[j + 1]);
        lemma_ctm_add_wf(s.drop_first(), conn, m);
        let rr = spec_ctm_add(s.drop_first(), conn, m);
        assert forall|i: int| 0 <= i < r.len() implies crate::data_type::msg_wf(
            (#[trigger] r[i]).1,
        ) by {
            if i == 0 {
                assert(r[0] == s[0]);
            } else {
                assert(r[i] == rr[i - 1]);
            }
        }
    }
}

/// Compiles the sorted connections in order, threading the shared
/// definition cache and binding each id to its compiled type (a later
/// binding of the same id replaces the earlier one).
pub open spec fn spec_compile_connections(
    cache: Seq<(Seq<char>, crate::data_type::MsgTypeV)>,
    cons: Seq<ConnectionV>,
) -> Result<
    (Seq<(Seq<char>, crate::data_type::MsgTypeV)>, Seq<(u32, crate::data_type::MsgTypeV)>),
    RosError,
>
    decreases cons.len(),
{
    if cons.len() == 0 {
        Ok((cache, Seq::empty()))
    } else {
        match spec_compile_connections(cache, cons.drop_last()) {
            Err(e) => Err(e),
            Ok((cache1, acc)) => match cons.last().data {
                None => Err(RosError::InvalidRecord),
                Some(cd) => match crate::parse_msg::spec_parse_con_msg_def(
                    cache1,
                    cd.message_type,
                    cd.message_definition,
                ) {
                    Err(e) => Err(e),
                    Ok((cache2, m)) => Ok((cache2, spec_ctm_add(acc, cons.last().conn, m))),
                },
            },
        }
    }
}

proof fn lemma_compile_connections_err_prefix(
    cache: Seq<(Seq<char>, crate::data_type::MsgTypeV)>,
    cons: Seq<ConnectionV>,
    k: int,
)
    requires
        0 <= k <= cons.len(),
        spec_compile_connections(cache, cons.take(k)) is Err,
    ensures
        spec_compile_connections(cache, cons) == spec_compile_connections(cache, cons.take(k)),
    decreases cons.len() - k,
{
    if k == cons.len() {
        assert(cons.take(k) =~= cons);
    } else {
        assert(cons.take(k + 1).drop_last() =~= cons.take(k));
        lemma_compile_connections_err_prefix(cache, cons, k + 1);
    }
}

/// What [`Meta::borrow_connection_to_id_message`] yields: the sorted
/// connections compiled against an initially empty cache.
pub open spec fn spec_connection_to_id_message(mv: MetaV) -> Result<
    Seq<(u32, crate::data_type::MsgTypeV)>,
    RosError,
> {
    match spec_compile_connections(
        Seq::empty(),
        spec_conn_sort(spec_all_connections(mv.topic_to_connections)),
    ) {
        Err(e) => Err(e),
        Ok((_, ctm)) => Ok(ctm),
    }
}

/// Inserts a connection into a vector sorted by id.
fn conn_insert(v: &mut Vec<Connection>, x: Connection)
    ensures
        final(v).deep_view() == spec_conn_insert(old(v).deep_view(), x@),
    decreases old(v)@.len(),
{
    let n = v.len();
    if n > 0 && x.conn < v[n - 1].conn {
        let last = match v.pop() {
            Some(l) => l,
            None => {
                return ;
            },
        };
        assert(v.deep_view() =~= old(v).deep_view().drop_last());
        assert(old(v).deep_view().last() == last@);
        conn_insert(v, x);
        let ghost mid = v.deep_view();
        v.push(last);
        assert(v.deep_view() =~= mid.push(last@));
    } else {
        let ghost pre = v.deep_view();
        v.push(x);
        assert(v.deep_view() =~= pre.push(x@));
        proof {
            if n > 0 {
                assert(pre.last() == old(v).deep_view().last());
            }
        }
    }
}

/// Binds a connection id to its compiled type, replacing any earlier
/// binding of the same id.
fn ctm_add(ctm: &mut Vec<(u32, crate::msg::MsgType)>, conn_id: u32, m: crate::msg::MsgType)
    ensures
        final(ctm).deep_view() == spec_ctm_add(old(ctm).deep_view(), conn_id, m@),
{
    let ghost pre = ctm.deep_view();
    let ghost mv = crate::data_type::msg_type_view(m);
    let n = ctm.len();
    let mut t: usize = 0;
    while t < n
        invariant
            0 <= t <= n,
            n == ctm@.len(),
            pre == ctm.deep_view(),
            pre == old(ctm).deep_view(),
            mv == m@,
            forall|u: int| 0 <= u < t ==> (#[trigger] pre[u]).0 != conn_id,
        decreases n - t,
    {
        assert(pre[t as int] == ctm@[t as int].deep_view());
        if ctm[t].0 == conn_id {
            let entry = (conn_id, m);
            assert(entry.deep_view() == (conn_id, mv));
            let _ = ctm.remove(t);
            ctm.insert(t, entry);
            proof {
                lemma_ctm_add_found(pre, conn_id, mv, t as int);
                assert(ctm.deep_view() =~= pre.update(t as int, (conn_id, mv)));
            }
            return ;
        }
        t = t + 1;
    }
    let entry = (conn_id, m);
    assert(entry.deep_view() == (conn_id, mv));
    ctm.push(entry);
    proof {
        lemma_ctm_add_absent(pre, conn_id, mv);
        assert(ctm.deep_view() =~= pre.push((conn_id, mv)));
    }
}

impl Meta {
    /// Flattens the topic groups into one connection list.
    fn all_connections(&self) -> (r: Vec<Connection>)
        ensures
            r.deep_view() == spec_all_connections(self@.topic_to_connections),
    {
        let ghost tv = self@.topic_to_connections;
        let n = self.topic_to_connections.len();
        let mut out: Vec<Connection> = Vec::new();
        let mut i: usize = 0;
        assert(tv.take(0) =~= Seq::<(Seq<char>, Seq<ConnectionV>)>::empty());
        assert(out.deep_view() =~= spec_all_connections(tv.take(0)));
        while i < n
            invariant
                0 <= i <= n,
                n == self.topic_to_connections@.len(),
                tv == self@.topic_to_connections,
                out.deep_view() == spec_all_connections(tv.take(i as int)),
            decreases n - i,
        {
            proof {
                assert(tv.take(i as int + 1).drop_last() =~= tv.take(i as int));
                assert(tv.take(i as int + 1).last() == tv[i as int]);
                assert(tv[i as int] == self.topic_to_connections@[i as int].deep_view());
            }
            let ghost pre = out.deep_view();
            let ghost grp = tv[i as int].1;
            let group = &self.topic_to_connections[i].1;
            let cn = group.len();
            let mut j: usize = 0;
            assert(pre + grp.take(0) =~= pre);
            while j < cn
                invariant
                    0 <= j <= cn,
                    cn == group@.len(),
                    cn == grp.len(),
                    forall|t: int| 0 <= t < cn ==> grp[t] == (#[trigger] group@[t])@,
                    out.deep_view() == pre + grp.take(j as int),
                decreases cn - j,
            {
                let ghost mid = out.deep_view();
                out.push(group[j].duplicate());
                proof {
                    assert(out.deep_view() =~= mid.push(grp[j as int]));
                    assert(mid.push(grp[j as int]) =~= pre + grp.take(j as int + 1));
                }
                j = j + 1;
            }
            assert(grp.take(cn as int) =~= grp);
            i = i + 1;
        }
        assert(tv.take(n as int) =~= tv);
        out
    }

    /// Compiles the schema of every connection, shared through one
    /// definition cache, and returns the connection-id to message-type
    /// table. Connections are compiled in ascending id order, so
    /// sub-types referenced across connections are already cached.
    pub fn borrow_connection_to_id_message(&self) -> (r: Result<
        Vec<(u32, crate::msg::MsgType)>,
        RosError,
    >)
        ensures
            match r {
                Ok(v) => spec_connection_to_id_message(self@) == Ok::<
                    Seq<(u32, crate::data_type::MsgTypeV)>,
                    RosError,
                >(v.deep_view()) && ctm_wf(v.deep_view()),
                Err(e) => spec_connection_to_id_message(self@) == Err::<
                    Seq<(u32, crate::data_type::MsgTypeV)>,
                    RosError,
                >(e),
            },
    {
        let flat = self.all_connections();
        let ghost flat_v = flat.deep_view();
        // Sort by connection id so leaf definitions appear first.
        let total = flat.len();
        let mut rest = flat;
        let mut sorted: Vec<Connection> = Vec::new();
        let mut i: usize = 0;
        assert(sorted.deep_view() =~= Seq::<ConnectionV>::empty());
        assert(flat_v.take(0) =~= Seq::<ConnectionV>::empty());
        assert(flat_v.skip(0) =~= flat_v);
        while rest.len() > 0
            invariant
                i + rest@.len() == total,
                total == flat_v.len(),
                rest.deep_view() == flat_v.skip(i as int),
                sorted.deep_view() == spec_conn_sort(flat_v.take(i as int)),
            decreases rest@.len(),
        {
            let ghost pre_rest = rest.deep_view();
            let ghost prev = rest@;
            let x = rest.remove(0);
            proof {
                assert(pre_rest[0] == flat_v[i as int]);
                assert(rest@ =~= prev.drop_first());
                assert forall|j: int|
                    0 <= j < rest@.len() implies rest.deep_view()[j] == flat_v.skip(
                    i as int + 1,
                )[j] by {
                    assert(rest@[j] == prev[j + 1]);
                    assert(pre_rest[j + 1] == prev[j + 1]@);
                    assert(flat_v.skip(i as int)[j + 1] == flat_v[i as int + 1 + j]);
                }
                assert(rest.deep_view() =~= flat_v.skip(i as int + 1));
                assert(flat_v.take(i as int + 1).drop_last() =~= flat_v.take(i as int));
                assert(flat_v.take(i as int + 1).last() == flat_v[i as int]);
            }
            conn_insert(&mut sorted, x);
            i = i + 1;
        }
        assert(flat_v.take(i as int) =~= flat_v);
        let ghost sv = spec_conn_sort(flat_v);
        // Compile in order, threading the cache.
        let mut cache = crate::msg::MsgDefCache::new();
        let mut ctm: Vec<(u32, crate::msg::MsgType)> = Vec::new();
        let sn = sorted.len();
        let mut k: usize = 0;
        assert(sv.take(0) =~= Seq::<ConnectionV>::empty());
        assert(ctm.deep_view() =~= Seq::<(u32, crate::data_type::MsgTypeV)>::empty());
        while k < sn
            invariant
                0 <= k <= sn,
                sn == sorted@.len(),
                sorted.deep_view() == sv,
                sv == spec_conn_sort(spec_all_connections(self@.topic_to_connections)),
                crate::msg::cache_wf(cache@),
                spec_compile_connections(Seq::empty(), sv.take(k as int)) == Ok::<
                    (
                        Seq<(Seq<char>, crate::data_type::MsgTypeV)>,
                        Seq<(u32, crate::data_type::MsgTypeV)>,
                    ),
                    RosError,
                >((cache@, ctm.deep_view())),
                ctm_wf(ctm.deep_view()),
            decreases sn - k,
        {
            proof {
                assert(sv.take(k as int + 1).drop_last() =~= sv.take(k as int));
                assert(sv.take(k as int + 1).last() == sv[k as int]);
                assert(sv[k as int] == sorted@[k as int]@);
            }
            let con = &sorted[k];
            match &con.data {
                None => {
                    proof {
                        lemma_compile_connections_err_prefix(Seq::empty(), sv, k as int + 1);
                    }
                    return Err(RosError::InvalidRecord);
                },
                Some(cd) => {
                    match crate::parse_msg::parse_con_msg_def(
                        &mut cache,
                        cd.message_type.as_str(),
                        cd.message_definition.as_str(),
                    ) {
                        Err(e) => {
                            proof {
                                lemma_compile_connections_err_prefix(
                                    Seq::empty(),
                                    sv,
                                    k as int + 1,
                                );
                            }
                            return Err(e);
                        },
                        Ok(m) => {
                            let ghost pre_ctm = ctm.deep_view();
                            let ghost mv = crate::data_type::msg_type_view(m);
                            ctm_add(&mut ctm, con.conn, m);
                            proof {
                                lemma_ctm_add_wf(pre_ctm, sv[k as int].conn, mv);
                            }
                        },
                    }
                },
            }
            k = k + 1;
        }
        assert(sv.take(sn as int) =~= sv);
        Ok(ctm)
    }
}

} // verus!
