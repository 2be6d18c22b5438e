//! What the metadata tables tell about a bag: its topics and types, its
//! time range, its message counts and how its chunks are compressed.
use vstd::prelude::*;

use itertools::Itertools;

use crate::metadata::{BagMetadata, ChunkView, ConnectionView, MetadataView};
use crate::msgs::conn_of;
use crate::query::{lemma_conn_of, texts};
use crate::time::{Duration, Time};

verus! {

/// `s` with each element kept at its first occurrence only.
pub open spec fn dedup<A>(s: Seq<A>) -> Seq<A>
    decreases s.len(),
{
    if s.len() == 0 {
        s
    } else if dedup(s.drop_last()).contains(s.last()) {
        dedup(s.drop_last())
    } else {
        dedup(s.drop_last()).push(s.last())
    }
}

/// Relies on itertools' `Itertools::unique`: it yields each distinct
/// string once, at its first occurrence, keeping the input's order.
#[verifier::external_body]
fn unique_texts(v: Vec<String>) -> (r: Vec<String>)
    ensures
        texts(r) == dedup(texts(v)),
{
    v.into_iter().unique().collect()
}

/// The earliest of `ts`, the first one among equals.
pub open spec fn earliest(ts: Seq<Time>) -> Option<Time>
    decreases ts.len(),
{
    if ts.len() == 0 {
        None
    } else {
        match earliest(ts.drop_last()) {
            Some(t) => if ts.last().spec_nanos() < t.spec_nanos() {
                Some(ts.last())
            } else {
                Some(t)
            },
            None => Some(ts.last()),
        }
    }
}

/// The latest of `ts`, the last one among equals.
pub open spec fn latest(ts: Seq<Time>) -> Option<Time>
    decreases ts.len(),
{
    if ts.len() == 0 {
        None
    } else {
        match latest(ts.drop_last()) {
            Some(t) => if ts.last().spec_nanos() >= t.spec_nanos() {
                Some(ts.last())
            } else {
                Some(t)
            },
            None => Some(ts.last()),
        }
    }
}

pub open spec fn chunk_starts(m: MetadataView) -> Seq<Time> {
    m.chunks.map_values(|c: ChunkView| c.start_time)
}

pub open spec fn chunk_ends(m: MetadataView) -> Seq<Time> {
    m.chunks.map_values(|c: ChunkView| c.end_time)
}

pub open spec fn conn_topics(m: MetadataView) -> Seq<Seq<char>> {
    m.connections.map_values(|c: ConnectionView| c.topic)
}

pub open spec fn conn_types(m: MetadataView) -> Seq<Seq<char>> {
    m.connections.map_values(|c: ConnectionView| c.data_type)
}

pub open spec fn conn_pairs(m: MetadataView) -> Seq<(Seq<char>, Seq<char>)> {
    m.connections.map_values(|c: ConnectionView| (c.topic, c.data_type))
}

/// The start of the bag, or zero for a bag without chunks.
pub open spec fn start_or_zero(m: MetadataView) -> Time {
    match earliest(chunk_starts(m)) {
        Some(t) => t,
        None => Time { secs: 0, nsecs: 0 },
    }
}

/// The end of the bag, or zero for a bag without chunks.
pub open spec fn end_or_zero(m: MetadataView) -> Time {
    match latest(chunk_ends(m)) {
        Some(t) => t,
        None => Time { secs: 0, nsecs: 0 },
    }
}

/// The number of messages of `m` on topic `t`.
pub open spec fn topic_count(m: MetadataView, t: Seq<char>) -> nat {
    m.index.filter(|e: crate::records::IndexData| conn_of(m, e.conn_id).topic == t).len()
}

/// The ids of the connections of `m` on topic `t`, in file order.
pub open spec fn topic_ids(m: MetadataView, t: Seq<char>) -> Seq<u32> {
    m.connections.filter(|c: ConnectionView| c.topic == t).map_values(
        |c: ConnectionView| c.connection_id,
    )
}

/// The ids of the connections of `m` of type `t`, in file order.
pub open spec fn type_ids(m: MetadataView, t: Seq<char>) -> Seq<u32> {
    m.connections.filter(|c: ConnectionView| c.data_type == t).map_values(
        |c: ConnectionView| c.connection_id,
    )
}

impl BagMetadata {
    /// The time of the earliest chunk start, `None` for a bag without chunks.
    pub fn start_time(&self) -> (r: Option<Time>)
        ensures
            r == earliest(chunk_starts(self@)),
    {
        let ghost ts = chunk_starts(self@);
        let mut best: Option<Time> = None;
        let mut i: usize = 0;
        while i < self.chunk_metadata.len()
            invariant
                ts == chunk_starts(self@),
                i <= self.chunk_metadata@.len(),
                best == earliest(ts.take(i as int)),
            decreases self.chunk_metadata.len() - i,
        {
            let t = self.chunk_metadata[i].start_time;
            assert(ts.take(i + 1).drop_last() =~= ts.take(i as int));
            assert(ts.take(i + 1).last() == t);
            best = match best {
                Some(b) => if t.nanos() < b.nanos() {
                    Some(t)
                } else {
                    Some(b)
                },
                None => Some(t),
            };
            i = i + 1;
        }
        assert(ts.take(i as int) =~= ts);
        best
    }

    /// The time of the latest chunk end, `None` for a bag without chunks.
    pub fn end_time(&self) -> (r: Option<Time>)
        ensures
            r == latest(chunk_ends(self@)),
    {
        let ghost ts = chunk_ends(self@);
        let mut best: Option<Time> = None;
        let mut i: usize = 0;
        while i < self.chunk_metadata.len()
            invariant
                ts == chunk_ends(self@),
                i <= self.chunk_metadata@.len(),
                best == latest(ts.take(i as int)),
            decreases self.chunk_metadata.len() - i,
        {
            let t = self.chunk_metadata[i].end_time;
            assert(ts.take(i + 1).drop_last() =~= ts.take(i as int));
            assert(ts.take(i + 1).last() == t);
            best = match best {
                Some(b) => if t.nanos() >= b.nanos() {
                    Some(t)
                } else {
                    Some(b)
                },
                None => Some(t),
            };
            i = i + 1;
        }
        assert(ts.take(i as int) =~= ts);
        best
    }

    /// The time from the start to the end of the bag; both default to zero
    /// for a bag without chunks.
    pub fn duration(&self) -> (r: Duration)
        requires
            start_or_zero(self@).spec_nanos() <= end_or_zero(self@).spec_nanos(),
        ensures
            r.spec_nanos() == end_or_zero(self@).spec_nanos() - start_or_zero(self@).spec_nanos(),
            r.nsecs < 1_000_000_000,
    {
        let start = match self.start_time() {
            Some(t) => t,
            None => Time::zero(),
        };
        let end = match self.end_time() {
            Some(t) => t,
            None => Time::zero(),
        };
        end.dur(&start)
    }

    /// The number of messages of the bag.
    pub fn message_count(&self) -> (r: usize)
        ensures
            r == self@.index.len(),
    {
        self.index_data.len()
    }

    /// The distinct topics of the bag, in the order of their first connection.
    pub fn topics(&self) -> (r: Vec<String>)
        ensures
            texts(r) == dedup(conn_topics(self@)),
    {
        let mut all: Vec<String> = Vec::with_capacity(self.connection_data.len());
        let mut i: usize = 0;
        while i < self.connection_data.len()
            invariant
                i <= self.connection_data@.len(),
                texts(all) == conn_topics(self@).take(i as int),
            decreases self.connection_data.len() - i,
        {
            let ghost before = texts(all);
            let t = self.connection_data[i].topic.clone();
            all.push(t);
            assert(texts(all) =~= before.push(self.connection_data@[i as int].topic@));
            assert(conn_topics(self@).take(i + 1) =~= conn_topics(self@).take(i as int).push(
                self.connection_data@[i as int].topic@,
            ));
            i = i + 1;
        }
        assert(conn_topics(self@).take(i as int) =~= conn_topics(self@));
        unique_texts(all)
    }

    /// The distinct message types of the bag, in the order of their first
    /// connection.
    pub fn types(&self) -> (r: Vec<String>)
        ensures
            texts(r) == dedup(conn_types(self@)),
    {
        let mut all: Vec<String> = Vec::with_capacity(self.connection_data.len());
        let mut i: usize = 0;
        while i < self.connection_data.len()
            invariant
                i <= self.connection_data@.len(),
                texts(all) == conn_types(self@).take(i as int),
            decreases self.connection_data.len() - i,
        {
            let ghost before = texts(all);
            let t = self.connection_data[i].data_type.clone();
            all.push(t);
            assert(texts(all) =~= before.push(self.connection_data@[i as int].data_type@));
            assert(conn_types(self@).take(i + 1) =~= conn_types(self@).take(i as int).push(
                self.connection_data@[i as int].data_type@,
            ));
            i = i + 1;
        }
        assert(conn_types(self@).take(i as int) =~= conn_types(self@));
        unique_texts(all)
    }
}

/// Statistics of one compression used in a bag.
#[derive(Debug)]
pub struct CompressionInfo {
    pub name: String,
    pub chunk_count: usize,
    pub total_compressed: u64,
    pub total_uncompressed: u64,
}

pub struct CompressionView {
    pub name: Seq<char>,
    pub chunk_count: int,
    pub total_compressed: int,
    pub total_uncompressed: int,
}

impl View for CompressionInfo {
    type V = CompressionView;

    open spec fn view(&self) -> CompressionView {
        CompressionView {
            name: self.name@,
            chunk_count: self.chunk_count as int,
            total_compressed: self.total_compressed as int,
            total_uncompressed: self.total_uncompressed as int,
        }
    }
}

impl CompressionInfo {
    /// Orders statistics by descending total of compressed bytes.
    pub fn cmp_by_compressed_desc(&self, other: &CompressionInfo) -> (r: core::cmp::Ordering)
        ensures
            (r == core::cmp::Ordering::Less) <==> self.total_compressed > other.total_compressed,
            (r == core::cmp::Ordering::Equal) <==> self.total_compressed == other.total_compressed,
            (r == core::cmp::Ordering::Greater) <==> self.total_compressed < other.total_compressed,
    {
        if self.total_compressed > other.total_compressed {
            core::cmp::Ordering::Less
        } else if self.total_compressed == other.total_compressed {
            core::cmp::Ordering::Equal
        } else {
            core::cmp::Ordering::Greater
        }
    }
}

pub open spec fn info_views(v: Seq<CompressionInfo>) -> Seq<CompressionView> {
    v.map_values(|c: CompressionInfo| c@)
}

/// The statistics in `v` whose compressed total is `k`, in order.
pub open spec fn with_total(v: Seq<CompressionView>, k: int) -> Seq<CompressionView> {
    v.filter(|c: CompressionView| c.total_compressed == k)
}

/// Relies on itertools' `Itertools::sorted_by`, which sorts with the
/// stable `slice::sort_by`: the result is a permutation of `v` in
/// descending order of compressed bytes, equal totals keeping their order.
#[verifier::external_body]
fn sort_by_compressed_desc(v: Vec<CompressionInfo>) -> (r: Vec<CompressionInfo>)
    ensures
        info_views(r@).to_multiset() == info_views(v@).to_multiset(),
        forall|i: int, j: int|
            0 <= i < j < r@.len() ==> r@[i].total_compressed >= r@[j].total_compressed,
        forall|k: int| #[trigger] with_total(info_views(r@), k) == with_total(info_views(v@), k),
{
    v.into_iter().sorted_by(|a, b| a.cmp_by_compressed_desc(b)).collect()
}

pub open spec fn sum_compressed(cs: Seq<ChunkView>) -> int
    decreases cs.len(),
{
    if cs.len() == 0 {
        0
    } else {
        sum_compressed(cs.drop_last()) + cs.last().compressed_size
    }
}

pub open spec fn sum_uncompressed(cs: Seq<ChunkView>) -> int
    decreases cs.len(),
{
    if cs.len() == 0 {
        0
    } else {
        sum_uncompressed(cs.drop_last()) + cs.last().uncompressed_size
    }
}

pub open spec fn chunks_named(cs: Seq<ChunkView>, n: Seq<char>) -> Seq<ChunkView> {
    cs.filter(|c: ChunkView| c.compression == n)
}

/// The statistics of compression `n` over the chunks `cs`.
pub open spec fn group_of(cs: Seq<ChunkView>, n: Seq<char>) -> CompressionView {
    CompressionView {
        name: n,
        chunk_count: chunks_named(cs, n).len() as int,
        total_compressed: sum_compressed(chunks_named(cs, n)),
        total_uncompressed: sum_uncompressed(chunks_named(cs, n)),
    }
}

pub open spec fn compression_names(m: MetadataView) -> Seq<Seq<char>> {
    dedup(m.chunks.map_values(|c: ChunkView| c.compression))
}

/// One statistic for each compression of `m`, in the order of first use.
pub open spec fn compression_groups(m: MetadataView) -> Seq<CompressionView> {
    compression_names(m).map_values(|n: Seq<char>| group_of(m.chunks, n))
}

pub open spec fn pair_texts(v: Seq<(String, String)>) -> Seq<(Seq<char>, Seq<char>)> {
    v.map_values(|p: (String, String)| (p.0@, p.1@))
}

impl BagMetadata {
    /// The distinct pairs of topic and type of the bag, in the order of
    /// their first connection.
    pub fn topics_and_types(&self) -> (r: Vec<(String, String)>)
        ensures
            pair_texts(r@) == dedup(conn_pairs(self@)),
    {
        let ghost ps = conn_pairs(self@);
        let mut out: Vec<(String, String)> = Vec::new();
        let mut i: usize = 0;
        while i < self.connection_data.len()
            invariant
                ps == conn_pairs(self@),
                i <= self.connection_data@.len(),
                pair_texts(out@) == dedup(ps.take(i as int)),
            decreases self.connection_data.len() - i,
        {
            let c = &self.connection_data[i];
            assert(ps.take(i + 1).drop_last() =~= ps.take(i as int));
            assert(ps.take(i + 1).last() == (c.topic@, c.data_type@));
            let mut j: usize = 0;
            let mut seen = false;
            while j < out.len() && !seen
                invariant
                    j <= out@.len(),
                    seen ==> pair_texts(out@).contains((c.topic@, c.data_type@)),
                    !seen ==> forall|x: int| 0 <= x < j ==> pair_texts(out@)[x] != (c.topic@, c.data_type@),
                decreases out.len() - j,
            {
                if out[j].0 == c.topic && out[j].1 == c.data_type {
                    assert(pair_texts(out@)[j as int] == (c.topic@, c.data_type@));
                    seen = true;
                }
                j = j + 1;
            }
            if !seen {
                let ghost before = pair_texts(out@);
                out.push((c.topic.clone(), c.data_type.clone()));
                assert(pair_texts(out@) =~= before.push((c.topic@, c.data_type@)));
            }
            i = i + 1;
        }
        assert(ps.take(i as int) =~= ps);
        out
    }

    /// The connections of each topic: one entry per distinct topic, in the
    /// order of `topics`, with the ids of its connections in file order.
    pub fn topic_to_connection_ids(&self) -> (r: Vec<(String, Vec<u32>)>)
        ensures
            r@.len() == dedup(conn_topics(self@)).len(),
            forall|i: int|
                0 <= i < r@.len() ==> (#[trigger] r@[i]).0@ == dedup(conn_topics(self@))[i]
                    && r@[i].1@ == topic_ids(self@, r@[i].0@),
    {
        let topics = self.topics();
        let mut out: Vec<(String, Vec<u32>)> = Vec::with_capacity(topics.len());
        let mut i: usize = 0;
        while i < topics.len()
            invariant
                texts(topics) == dedup(conn_topics(self@)),
                i <= topics@.len(),
                out@.len() == i,
                forall|k: int|
                    0 <= k < i ==> (#[trigger] out@[k]).0@ == topics@[k]@ && out@[k].1@
                        == topic_ids(self@, out@[k].0@),
            decreases topics.len() - i,
        {
            let t = topics[i].clone();
            let ids = self.ids_with_topic(&t);
            out.push((t, ids));
            i = i + 1;
        }
        out
    }

    /// The connections of each type: one entry per distinct type, in the
    /// order of `types`, with the ids of its connections in file order.
    pub fn type_to_connection_ids(&self) -> (r: Vec<(String, Vec<u32>)>)
        ensures
            r@.len() == dedup(conn_types(self@)).len(),
            forall|i: int|
                0 <= i < r@.len() ==> (#[trigger] r@[i]).0@ == dedup(conn_types(self@))[i]
                    && r@[i].1@ == type_ids(self@, r@[i].0@),
    {
        let types = self.types();
        let mut out: Vec<(String, Vec<u32>)> = Vec::with_capacity(types.len());
        let mut i: usize = 0;
        while i < types.len()
            invariant
                texts(types) == dedup(conn_types(self@)),
                i <= types@.len(),
                out@.len() == i,
                forall|k: int|
                    0 <= k < i ==> (#[trigger] out@[k]).0@ == types@[k]@ && out@[k].1@
                        == type_ids(self@, out@[k].0@),
            decreases types.len() - i,
        {
            let t = types[i].clone();
            let ids = self.ids_with_type(&t);
            out.push((t, ids));
            i = i + 1;
        }
        out
    }

    fn ids_with_topic(&self, t: &String) -> (r: Vec<u32>)
        ensures
            r@ == topic_ids(self@, t@),
    {
        let ghost cs = self@.connections;
        let ghost pred = |c: ConnectionView| c.topic == t@;
        let mut ids: Vec<u32> = Vec::new();
        let mut c: usize = 0;
        while c < self.connection_data.len()
            invariant
                cs == self@.connections,
                pred == (|c: ConnectionView| c.topic == t@),
                c <= cs.len(),
                ids@ == cs.take(c as int).filter(pred).map_values(|c: ConnectionView| c.connection_id),
            decreases self.connection_data.len() - c,
        {
            proof {
                reveal(Seq::filter);
            }
            assert(cs.take(c + 1).drop_last() =~= cs.take(c as int));
            let ghost before = cs.take(c as int).filter(pred);
            if self.connection_data[c].topic == *t {
                ids.push(self.connection_data[c].connection_id);
                assert(cs.take(c + 1).filter(pred) == before.push(cs[c as int]));
                assert(ids@ =~= before.push(cs[c as int]).map_values(|c: ConnectionView| c.connection_id));
            } else {
                assert(cs.take(c + 1).filter(pred) == before);
            }
            c = c + 1;
        }
        assert(cs.take(c as int) =~= cs);
        ids
    }

    fn ids_with_type(&self, t: &String) -> (r: Vec<u32>)
        ensures
            r@ == type_ids(self@, t@),
    {
        let ghost cs = self@.connections;
        let ghost pred = |c: ConnectionView| c.data_type == t@;
        let mut ids: Vec<u32> = Vec::new();
        let mut c: usize = 0;
        while c < self.connection_data.len()
            invariant
                cs == self@.connections,
                pred == (|c: ConnectionView| c.data_type == t@),
                c <= cs.len(),
                ids@ == cs.take(c as int).filter(pred).map_values(|c: ConnectionView| c.connection_id),
            decreases self.connection_data.len() - c,
        {
            proof {
                reveal(Seq::filter);
            }
            assert(cs.take(c + 1).drop_last() =~= cs.take(c as int));
            let ghost before = cs.take(c as int).filter(pred);
            if self.connection_data[c].data_type == *t {
                ids.push(self.connection_data[c].connection_id);
                assert(cs.take(c + 1).filter(pred) == before.push(cs[c as int]));
                assert(ids@ =~= before.push(cs[c as int]).map_values(|c: ConnectionView| c.connection_id));
            } else {
                assert(cs.take(c + 1).filter(pred) == before);
            }
            c = c + 1;
        }
        assert(cs.take(c as int) =~= cs);
        ids
    }
}

impl BagMetadata {
    /// The position of the connection `id` among the connections.
    pub fn conn_index(&self, id: u32) -> (r: usize)
        requires
            self.wf(),
            self@.has_connection(id),
        ensures
            r < self@.connections.len(),
            self@.connections[r as int].connection_id == id,
            conn_of(self@, id) == self@.connections[r as int],
    {
        let ghost m = self@;
        let mut i: usize = 0;
        while i < self.connection_data.len()
            invariant
                m == self@,
                m.wf(),
                m.has_connection(id),
                i <= m.connections.len(),
                forall|j: int| 0 <= j < i ==> m.connections[j].connection_id != id,
            decreases self.connection_data.len() - i,
        {
            if self.connection_data[i].connection_id == id {
                proof {
                    lemma_conn_of(m, i as int);
                }
                return i;
            }
            i = i + 1;
        }
        proof {
            let c = choose|c: int| 0 <= c < m.connections.len() && m.connections[c].connection_id == id;
            assert(m.connections[c].connection_id != id);
        }
        0
    }

    /// The number of messages on each topic, one entry per distinct topic
    /// in the order of `topics`.
    pub fn topic_message_counts(&self) -> (r: Vec<(String, usize)>)
        requires
            self.wf(),
        ensures
            r@.len() == dedup(conn_topics(self@)).len(),
            forall|i: int|
                0 <= i < r@.len() ==> (#[trigger] r@[i]).0@ == dedup(conn_topics(self@))[i]
                    && r@[i].1 == topic_count(self@, r@[i].0@),
    {
        let topics = self.topics();
        let mut out: Vec<(String, usize)> = Vec::with_capacity(topics.len());
        let mut i: usize = 0;
        while i < topics.len()
            invariant
                self.wf(),
                texts(topics) == dedup(conn_topics(self@)),
                i <= topics@.len(),
                out@.len() == i,
                forall|k: int|
                    0 <= k < i ==> (#[trigger] out@[k]).0@ == topics@[k]@ && out@[k].1
                        == topic_count(self@, out@[k].0@),
            decreases topics.len() - i,
        {
            let t = topics[i].clone();
            let n = self.count_on_topic(&t);
            out.push((t, n));
            i = i + 1;
        }
        out
    }

    fn count_on_topic(&self, t: &String) -> (r: usize)
        requires
            self.wf(),
        ensures
            r == topic_count(self@, t@),
    {
        let ghost m = self@;
        let ghost pred = |e: crate::records::IndexData| conn_of(m, e.conn_id).topic == t@;
        let mut n: usize = 0;
        let mut k: usize = 0;
        while k < self.index_data.len()
            invariant
                m == self@,
                m.wf(),
                pred == (|e: crate::records::IndexData| conn_of(m, e.conn_id).topic == t@),
                k <= m.index.len(),
                n <= k,
                n == m.index.take(k as int).filter(pred).len(),
            decreases self.index_data.len() - k,
        {
            proof {
                reveal(Seq::filter);
            }
            let e = self.index_data[k];
            assert(m.entry_is_placed(m.index[k as int]));
            assert(m.index.take(k + 1).drop_last() =~= m.index.take(k as int));
            assert(m.index.take(k + 1).last() == e);
            let ci = self.conn_index(e.conn_id);
            if self.connection_data[ci].topic == *t {
                n = n + 1;
            }
            k = k + 1;
        }
        assert(m.index.take(k as int) =~= m.index);
        n
    }

    /// Statistics of each compression used by the bag's chunks, by
    /// descending total of compressed bytes.
    pub fn compression_info(&self) -> (r: Vec<CompressionInfo>)
        requires
            self.wf(),
        ensures
            info_views(r@).to_multiset() == compression_groups(self@).to_multiset(),
            forall|i: int, j: int|
                0 <= i < j < r@.len() ==> r@[i].total_compressed >= r@[j].total_compressed,
    {
        let ghost m = self@;
        let mut all: Vec<String> = Vec::with_capacity(self.chunk_metadata.len());
        let mut i: usize = 0;
        while i < self.chunk_metadata.len()
            invariant
                m == self@,
                i <= m.chunks.len(),
                texts(all) == m.chunks.map_values(|c: ChunkView| c.compression).take(i as int),
            decreases self.chunk_metadata.len() - i,
        {
            let ghost before = texts(all);
            all.push(self.chunk_metadata[i].compression.clone());
            assert(texts(all) =~= before.push(m.chunks[i as int].compression));
            assert(m.chunks.map_values(|c: ChunkView| c.compression).take(i + 1) =~= m.chunks.map_values(
                |c: ChunkView| c.compression,
            ).take(i as int).push(m.chunks[i as int].compression));
            i = i + 1;
        }
        assert(m.chunks.map_values(|c: ChunkView| c.compression).take(i as int) =~= m.chunks.map_values(
            |c: ChunkView| c.compression,
        ));
        let names = unique_texts(all);
        let mut out: Vec<CompressionInfo> = Vec::with_capacity(names.len());
        let mut g: usize = 0;
        while g < names.len()
            invariant
                m == self@,
                m.wf(),
                texts(names) == compression_names(m),
                g <= names@.len(),
                info_views(out@) == compression_groups(m).take(g as int),
            decreases names.len() - g,
        {
            let name = names[g].clone();
            let info = self.group_named(name);
            let ghost before = info_views(out@);
            out.push(info);
            assert(info_views(out@) =~= before.push(group_of(m.chunks, names@[g as int]@)));
            assert(compression_groups(m).take(g + 1) =~= compression_groups(m).take(g as int).push(
                group_of(m.chunks, names@[g as int]@),
            ));
            g = g + 1;
        }
        assert(compression_groups(m).take(g as int) =~= compression_groups(m));
        sort_by_compressed_desc(out)
    }

    fn group_named(&self, name: String) -> (r: CompressionInfo)
        requires
            self.wf(),
        ensures
            r@ == group_of(self@.chunks, name@),
    {
        let ghost cs = self@.chunks;
        let ghost pred = |c: ChunkView| c.compression == name@;
        let mut count: usize = 0;
        let mut total_compressed: u64 = 0;
        let mut total_uncompressed: u64 = 0;
        let mut k: usize = 0;
        while k < self.chunk_metadata.len()
            invariant
                cs == self@.chunks,
                self.wf(),
                pred == (|c: ChunkView| c.compression == name@),
                k <= cs.len(),
                count <= k,
                count == chunks_named(cs.take(k as int), name@).len(),
                total_compressed == sum_compressed(chunks_named(cs.take(k as int), name@)),
                total_uncompressed == sum_uncompressed(chunks_named(cs.take(k as int), name@)),
                total_compressed <= count * 0xFFFF_FFFF,
                total_uncompressed <= count * 0xFFFF_FFFF,
            decreases self.chunk_metadata.len() - k,
        {
            proof {
                reveal(Seq::filter);
            }
            let c = &self.chunk_metadata[k];
            assert(cs.take(k + 1).drop_last() =~= cs.take(k as int));
            assert(cs.take(k + 1).last() == c@);
            let ghost before = chunks_named(cs.take(k as int), name@);
            if c.compression == name {
                assert(chunks_named(cs.take(k + 1), name@) == before.push(c@));
                assert(before.push(c@).drop_last() =~= before);
                assert(count + 1 <= 0xFFFF_FFFF);
                assert(total_compressed + c.compressed_size <= (count + 1) * 0xFFFF_FFFF) by (nonlinear_arith)
                    requires
                        total_compressed <= count * 0xFFFF_FFFF,
                        c.compressed_size <= 0xFFFF_FFFF,
                ;
                assert(total_uncompressed + c.uncompressed_size <= (count + 1) * 0xFFFF_FFFF) by (nonlinear_arith)
                    requires
                        total_uncompressed <= count * 0xFFFF_FFFF,
                        c.uncompressed_size <= 0xFFFF_FFFF,
                ;
                assert((count + 1) * 0xFFFF_FFFF <= 0xFFFF_FFFF * 0xFFFF_FFFF) by (nonlinear_arith)
                    requires
                        count + 1 <= 0xFFFF_FFFF,
                ;
                count = count + 1;
                total_compressed = total_compressed + c.compressed_size as u64;
                total_uncompressed = total_uncompressed + c.uncompressed_size as u64;
            } else {
                assert(chunks_named(cs.take(k + 1), name@) == before);
            }
            k = k + 1;
        }
        assert(cs.take(k as int) =~= cs);
        CompressionInfo { name, chunk_count: count, total_compressed, total_uncompressed }
    }
}

impl crate::bag::Bag {
    /// The time of the earliest chunk start, `None` for a bag without chunks.
    pub fn start_time(&self) -> (r: Option<Time>)
        ensures
            r == earliest(chunk_starts(self.metadata@)),
    {
        self.metadata.start_time()
    }

    /// The time of the latest chunk end, `None` for a bag without chunks.
    pub fn end_time(&self) -> (r: Option<Time>)
        ensures
            r == latest(chunk_ends(self.metadata@)),
    {
        self.metadata.end_time()
    }

    /// The time from the start to the end of the bag.
    pub fn duration(&self) -> (r: Duration)
        requires
            start_or_zero(self.metadata@).spec_nanos() <= end_or_zero(self.metadata@).spec_nanos(),
        ensures
            r.spec_nanos() == end_or_zero(self.metadata@).spec_nanos() - start_or_zero(
                self.metadata@,
            ).spec_nanos(),
            r.nsecs < 1_000_000_000,
    {
        self.metadata.duration()
    }
}

} // verus!
