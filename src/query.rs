//! Queries over the messages of a bag, and the iterator that yields the
//! matching messages in time order.
use vstd::prelude::*;

use crate::bag::{locate_message, message_span, Bag};
use crate::errors::{Error, ErrorKind};
use crate::metadata::{ConnectionView, MetadataView};
use crate::msgs::{conn_of, MessageView};
use crate::records::{ConnectionData, IndexData};
use crate::time::Time;

verus! {

/// Which messages to read: by topic, by type and by time. `None` accepts
/// every topic, every type, or has no bound.
pub struct Query {
    pub topics: Option<Vec<String>>,
    pub types: Option<Vec<String>>,
    pub start_time: Option<Time>,
    pub end_time: Option<Time>,
}

pub struct QueryView {
    pub topics: Option<Seq<Seq<char>>>,
    pub types: Option<Seq<Seq<char>>>,
    pub start_time: Option<Time>,
    pub end_time: Option<Time>,
}

pub open spec fn texts(v: Vec<String>) -> Seq<Seq<char>> {
    v@.map_values(|s: String| s@)
}

impl View for Query {
    type V = QueryView;

    open spec fn view(&self) -> QueryView {
        QueryView {
            topics: match self.topics {
                Some(v) => Some(texts(v)),
                None => None,
            },
            types: match self.types {
                Some(v) => Some(texts(v)),
                None => None,
            },
            start_time: self.start_time,
            end_time: self.end_time,
        }
    }
}

/// The query accepts messages of connection `c`: its topic is one of the
/// query's topics and its type one of the query's types.
pub open spec fn selects_connection(q: QueryView, c: ConnectionView) -> bool {
    &&& (q.topics is None || q.topics->0.contains(c.topic))
    &&& (q.types is None || q.types->0.contains(c.data_type))
}

/// The time `t` lies within the query's bounds.
pub open spec fn in_window(q: QueryView, t: Time) -> bool {
    &&& (q.start_time is None || q.start_time->0.spec_nanos() <= t.spec_nanos())
    &&& (q.end_time is None || t.spec_nanos() <= q.end_time->0.spec_nanos())
}

/// The query accepts the message of index entry `e` of bag `m`.
pub open spec fn accepts(m: MetadataView, q: QueryView, e: IndexData) -> bool {
    selects_connection(q, conn_of(m, e.conn_id)) && in_window(q, e.time)
}

/// The index entries of `m` that the query accepts, in file order.
pub open spec fn selected(m: MetadataView, q: QueryView) -> Seq<IndexData> {
    m.index.filter(|e: IndexData| accepts(m, q, e))
}

/// `a` comes no later than `b`: by time, then by chunk position, offset,
/// connection, chunk number and seconds.
pub open spec fn entry_le(a: IndexData, b: IndexData) -> bool {
    let (x, y) = (a.time.spec_nanos(), b.time.spec_nanos());
    ||| x < y
    ||| x == y && a.chunk_header_pos < b.chunk_header_pos
    ||| x == y && a.chunk_header_pos == b.chunk_header_pos && a.offset < b.offset
    ||| x == y && a.chunk_header_pos == b.chunk_header_pos && a.offset == b.offset && a.conn_id
        < b.conn_id
    ||| x == y && a.chunk_header_pos == b.chunk_header_pos && a.offset == b.offset && a.conn_id
        == b.conn_id && a.chunk_index < b.chunk_index
    ||| x == y && a.chunk_header_pos == b.chunk_header_pos && a.offset == b.offset && a.conn_id
        == b.conn_id && a.chunk_index == b.chunk_index && a.time.secs <= b.time.secs
}

pub open spec fn sorted_entries(s: Seq<IndexData>) -> bool {
    forall|i: int, j: int| 0 <= i < j < s.len() ==> entry_le(s[i], s[j])
}

impl IndexData {
    /// The key that orders entries: time, chunk position, offset,
    /// connection, chunk number, seconds.
    pub fn sort_key(&self) -> (r: (u64, u64, u32, u32, usize, u32))
        ensures
            r == (self.time.spec_nanos() as u64, self.chunk_header_pos, self.offset, self.conn_id,
                self.chunk_index, self.time.secs),
    {
        (self.time.nanos(), self.chunk_header_pos, self.offset, self.conn_id, self.chunk_index, self.time.secs)
    }
}

/// Relies on `slice::sort_by_key`: the entries afterwards are a permutation
/// of those before, in ascending order of their keys; tuples are ordered
/// lexicographically.
#[verifier::external_body]
fn sort_entries(v: &mut Vec<IndexData>)
    ensures
        final(v)@.to_multiset() == old(v)@.to_multiset(),
        sorted_entries(final(v)@),
{
    v.sort_by_key(|e| e.sort_key());
}

/// Whether `s` is one of `v`.
fn contains_text(v: &Vec<String>, s: &String) -> (r: bool)
    ensures
        r == texts(*v).contains(s@),
{
    let mut i: usize = 0;
    while i < v.len()
        invariant
            i <= v@.len(),
            forall|j: int| 0 <= j < i ==> v@[j]@ != s@,
        decreases v.len() - i,
    {
        if v[i] == *s {
            assert(texts(*v)[i as int] == s@);
            return true;
        }
        i = i + 1;
    }
    false
}

impl Query {
    /// A query that accepts every message.
    pub fn all() -> (r: Query)
        ensures
            r.topics is None,
            r.types is None,
            r.start_time is None,
            r.end_time is None,
    {
        Query { topics: None, types: None, start_time: None, end_time: None }
    }

    /// A query that accepts every message.
    pub fn new() -> (r: Query)
        ensures
            r.topics is None,
            r.types is None,
            r.start_time is None,
            r.end_time is None,
    {
        Query::all()
    }

    /// Narrows the query to messages on one of `topics`.
    pub fn with_topics(self, topics: &[&str]) -> (r: Query)
        ensures
            r@ == (QueryView { topics: Some(topics@.map_values(|s: &str| s@)), ..self@ }),
    {
        let mut q = self;
        q.topics = Some(owned_texts(topics));
        q
    }

    /// Narrows the query to messages of one of `types`.
    pub fn with_types(self, types: &[&str]) -> (r: Query)
        ensures
            r@ == (QueryView { types: Some(types@.map_values(|s: &str| s@)), ..self@ }),
    {
        let mut q = self;
        q.types = Some(owned_texts(types));
        q
    }

    /// Drops the messages before `start_time`.
    pub fn with_start_time(self, start_time: Time) -> (r: Query)
        ensures
            r@ == (QueryView { start_time: Some(start_time), ..self@ }),
    {
        let mut q = self;
        q.start_time = Some(start_time);
        q
    }

    /// Drops the messages after `end_time`.
    pub fn with_end_time(self, end_time: Time) -> (r: Query)
        ensures
            r@ == (QueryView { end_time: Some(end_time), ..self@ }),
    {
        let mut q = self;
        q.end_time = Some(end_time);
        q
    }

    /// Narrows the query to messages on one of `topics`.
    pub fn topics(&mut self, topics: Vec<String>)
        ensures
            final(self)@ == (QueryView { topics: Some(texts(topics)), ..old(self)@ }),
    {
        self.topics = Some(topics);
    }

    /// Narrows the query to messages of one of `types`.
    pub fn types(&mut self, types: Vec<String>)
        ensures
            final(self)@ == (QueryView { types: Some(texts(types)), ..old(self)@ }),
    {
        self.types = Some(types);
    }

    /// Drops the messages before `start_time`.
    pub fn start_time(&mut self, start_time: Time)
        ensures
            final(self)@ == (QueryView { start_time: Some(start_time), ..old(self)@ }),
    {
        self.start_time = Some(start_time);
    }

    /// Drops the messages after `end_time`.
    pub fn end_time(&mut self, end_time: Time)
        ensures
            final(self)@ == (QueryView { end_time: Some(end_time), ..old(self)@ }),
    {
        self.end_time = Some(end_time);
    }

    /// The query accepts the messages of connection `c`.
    pub fn selects(&self, c: &ConnectionData) -> (r: bool)
        ensures
            r == selects_connection(self@, c@),
    {
        let topic_ok = match &self.topics {
            Some(ts) => contains_text(ts, &c.topic),
            None => true,
        };
        let type_ok = match &self.types {
            Some(ts) => contains_text(ts, &c.data_type),
            None => true,
        };
        topic_ok && type_ok
    }

    /// The time `t` lies within the query's bounds.
    pub fn admits_time(&self, t: &Time) -> (r: bool)
        ensures
            r == in_window(self@, *t),
    {
        let after_start = match &self.start_time {
            Some(s) => s.nanos() <= t.nanos(),
            None => true,
        };
        let before_end = match &self.end_time {
            Some(e) => t.nanos() <= e.nanos(),
            None => true,
        };
        after_start && before_end
    }
}

impl Default for Query {
    fn default() -> (r: Query)
        ensures
            r.topics is None,
            r.types is None,
            r.start_time is None,
            r.end_time is None,
    {
        Query::new()
    }
}

/// Owned copies of `v`.
fn owned_texts(v: &[&str]) -> (r: Vec<String>)
    ensures
        texts(r) == v@.map_values(|s: &str| s@),
{
    let mut out: Vec<String> = Vec::with_capacity(v.len());
    let mut i: usize = 0;
    while i < v.len()
        invariant
            i <= v@.len(),
            texts(out) == v@.take(i as int).map_values(|s: &str| s@),
        decreases v.len() - i,
    {
        let s: &str = v[i];
        let o: String = s.to_owned();
        assert(o@ == v@[i as int]@);
        let ghost before = texts(out);
        let ghost ov = o@;
        out.push(o);
        assert(texts(out) =~= before.push(ov));
        assert(v@.take(i + 1).map_values(|s: &str| s@) =~= v@.take(i as int).map_values(
            |s: &str| s@,
        ).push(ov));
        i = i + 1;
    }
    assert(v@.take(v@.len() as int) =~= v@);
    out
}

/// The connection of `m` that carries id `m.connections[j].connection_id`
/// is `m.connections[j]`: ids are unique.
pub proof fn lemma_conn_of(m: MetadataView, j: int)
    requires
        m.wf(),
        0 <= j < m.connections.len(),
    ensures
        conn_of(m, m.connections[j].connection_id) == m.connections[j],
{
    let id = m.connections[j].connection_id;
    let c = choose|c: int| 0 <= c < m.connections.len() && m.connections[c].connection_id == id;
    assert(0 <= c < m.connections.len() && m.connections[c].connection_id == id);
    if c < j {
        assert(m.connections[c].connection_id != m.connections[j].connection_id);
    } else if c > j {
        assert(m.connections[j].connection_id != m.connections[c].connection_id);
    }
}

/// Whether `id` is one of `v`.
fn contains_id(v: &Vec<u32>, id: u32) -> (r: bool)
    ensures
        r == v@.contains(id),
{
    let mut i: usize = 0;
    while i < v.len()
        invariant
            i <= v@.len(),
            forall|j: int| 0 <= j < i ==> v@[j] != id,
        decreases v.len() - i,
    {
        if v[i] == id {
            return true;
        }
        i = i + 1;
    }
    false
}

/// The ids of the connections of `bag` whose messages `query` accepts.
fn selected_connections(bag: &Bag, query: &Query) -> (r: Vec<u32>)
    requires
        bag.wf(),
    ensures
        forall|id: u32|
            #![trigger r@.contains(id)]
            bag.metadata@.has_connection(id) ==> (r@.contains(id) <==> selects_connection(
                query@,
                conn_of(bag.metadata@, id),
            )),
{
    let ghost m = bag.metadata@;
    let conns = &bag.metadata.connection_data;
    let mut ids: Vec<u32> = Vec::new();
    let mut i: usize = 0;
    while i < conns.len()
        invariant
            bag.wf(),
            m == bag.metadata@,
            conns == &bag.metadata.connection_data,
            i <= conns@.len(),
            forall|id: u32|
                #![trigger ids@.contains(id)]
                ids@.contains(id) <==> exists|j: int|
                    0 <= j < i && m.connections[j].connection_id == id && selects_connection(
                        query@,
                        m.connections[j],
                    ),
        decreases conns.len() - i,
    {
        let ghost before = ids@;
        if query.selects(&conns[i]) {
            ids.push(conns[i].connection_id);
            proof {
                assert forall|id: u32| #[trigger] ids@.contains(id) <==> exists|j: int|
                    0 <= j < i + 1 && m.connections[j].connection_id == id && selects_connection(
                        query@,
                        m.connections[j],
                    ) by {
                    if ids@.contains(id) && !before.contains(id) {
                        assert(id == conns@[i as int].connection_id);
                        assert(m.connections[i as int].connection_id == id);
                    }
                    if exists|j: int|
                        0 <= j < i + 1 && m.connections[j].connection_id == id && selects_connection(
                            query@,
                            m.connections[j],
                        ) {
                        let j = choose|j: int|
                            0 <= j < i + 1 && m.connections[j].connection_id == id
                                && selects_connection(query@, m.connections[j]);
                        if j < i {
                            assert(before.contains(id));
                            let q = choose|q: int| 0 <= q < before.len() && before[q] == id;
                            assert(ids@[q] == id);
                        } else {
                            assert(ids@[before.len() as int] == id);
                        }
                    }
                }
            }
        } else {
            proof {
                assert forall|id: u32| #[trigger] ids@.contains(id) <==> exists|j: int|
                    0 <= j < i + 1 && m.connections[j].connection_id == id && selects_connection(
                        query@,
                        m.connections[j],
                    ) by {
                    if exists|j: int|
                        0 <= j < i + 1 && m.connections[j].connection_id == id && selects_connection(
                            query@,
                            m.connections[j],
                        ) {
                        let j = choose|j: int|
                            0 <= j < i + 1 && m.connections[j].connection_id == id
                                && selects_connection(query@, m.connections[j]);
                        assert(j < i);
                    }
                }
            }
        }
        i = i + 1;
    }
    proof {
        assert forall|id: u32| #![trigger ids@.contains(id)] m.has_connection(id) implies (ids@.contains(id)
            <==> selects_connection(query@, conn_of(m, id))) by {
            let c = choose|c: int| 0 <= c < m.connections.len() && m.connections[c].connection_id == id;
            lemma_conn_of(m, c);
            if ids@.contains(id) {
                let j = choose|j: int|
                    0 <= j < m.connections.len() && m.connections[j].connection_id == id
                        && selects_connection(query@, m.connections[j]);
                lemma_conn_of(m, j);
            }
        }
    }
    ids
}

/// Iterates over the messages that a query accepts, in time order.
pub struct BagIter<'a> {
    pub bag: &'a Bag,
    pub index_data: Vec<IndexData>,
    pub current_index: usize,
}

impl<'a> BagIter<'a> {
    /// The iterator's entries belong to its bag, whose chunks are loaded.
    pub open spec fn wf(&self) -> bool {
        &&& self.bag.wf()
        &&& self.bag.chunk_bytes is Some
        &&& forall|k: int|
            0 <= k < self.index_data@.len() ==> self.bag.metadata@.index.contains(
                #[trigger] self.index_data@[k],
            )
    }

    /// The messages of `bag` that `query` accepts, ordered by time; ties are
    /// ordered by chunk position, then offset.
    pub fn new(bag: &'a Bag, query: &Query) -> (r: Result<BagIter<'a>, Error>)
        requires
            bag.wf(),
        ensures
            bag.chunk_bytes is None ==> (r matches Err(e) && e == Error {
                kind: ErrorKind::UnsupportedMode,
            }),
            bag.chunk_bytes is Some ==> (r matches Ok(it) && *it.bag == *bag && it.current_index == 0
                && it.wf() && it.index_data@.to_multiset() == selected(
                bag.metadata@,
                query@,
            ).to_multiset() && sorted_entries(it.index_data@)),
    {
        if bag.chunk_bytes.is_none() {
            return Err(Error::new(ErrorKind::UnsupportedMode));
        }
        let ghost m = bag.metadata@;
        let ghost pred = |e: IndexData| accepts(m, query@, e);
        let ids = selected_connections(bag, query);
        let index = &bag.metadata.index_data;
        let mut entries: Vec<IndexData> = Vec::new();
        let mut k: usize = 0;
        while k < index.len()
            invariant
                bag.wf(),
                m == bag.metadata@,
                index == &bag.metadata.index_data,
                pred == (|e: IndexData| accepts(m, query@, e)),
                forall|id: u32|
                    #![trigger ids@.contains(id)]
                    m.has_connection(id) ==> (ids@.contains(id) <==> selects_connection(
                        query@,
                        conn_of(m, id),
                    )),
                k <= index@.len(),
                entries@ == m.index.take(k as int).filter(pred),
            decreases index.len() - k,
        {
            let e = index[k];
            assert(m.entry_is_placed(m.index[k as int]));
            assert(m.index.take(k + 1).drop_last() =~= m.index.take(k as int));
            assert(m.index.take(k + 1).last() == e);
            proof {
                reveal(Seq::filter);
            }
            if contains_id(&ids, e.conn_id) && query.admits_time(&e.time) {
                entries.push(e);
            }
            k = k + 1;
        }
        assert(m.index.take(index@.len() as int) =~= m.index);
        let ghost unsorted = entries@;
        proof {
            assert forall|x: IndexData| #[trigger] unsorted.contains(x) implies m.index.contains(x) by {
                m.index.lemma_filter_contains_rev(pred, x);
            }
        }
        sort_entries(&mut entries);
        proof {
            broadcast use vstd::seq_lib::group_to_multiset_ensures;

            assert forall|k: int| 0 <= k < entries@.len() implies m.index.contains(#[trigger] entries@[k]) by {
                assert(entries@.to_multiset().count(entries@[k]) > 0);
                assert(unsorted.contains(entries@[k]));
            }
        }
        Ok(BagIter { bag, index_data: entries, current_index: 0 })
    }

    /// The next message, or `None` when all have been yielded.
    pub fn next(&mut self) -> (r: Option<MessageView<'a>>)
        requires
            old(self).wf(),
        ensures
            *final(self).bag == *old(self).bag,
            final(self).index_data@ == old(self).index_data@,
            final(self).wf(),
            old(self).current_index < old(self).index_data@.len() ==> final(self).current_index
                == old(self).current_index + 1 && (r matches Some(v) && v.wf() && *v.bag
                == *old(self).bag && v.shows(old(self).index_data@[old(self).current_index as int])),
            old(self).current_index >= old(self).index_data@.len() ==> final(self).current_index
                == old(self).current_index && r is None,
    {
        if self.current_index >= self.index_data.len() {
            return None;
        }
        let e = self.index_data[self.current_index];
        let bag: &'a Bag = self.bag;
        let ghost m = bag.metadata@;
        proof {
            assert(m.index.contains(e));
            let k = choose|k: int| 0 <= k < m.index.len() && m.index[k] == e;
            assert(m.entry_is_placed(m.index[k]));
            assert(message_span(bag.bodies()->0[e.chunk_index as int], e.offset as int) is Some);
        }
        let topic = connection_topic(bag, e.conn_id);
        let bodies = match &bag.chunk_bytes {
            Some(bs) => bs,
            None => {
                assert(false);
                return None;
            },
        };
        let body = bodies[e.chunk_index].as_slice();
        assert(body@ == bag.bodies()->0[e.chunk_index as int]);
        let (start, end) = match locate_message(body, e.offset) {
            Some(span) => span,
            None => {
                assert(false);
                return None;
            },
        };
        proof {
            let span = message_span(body@, e.offset as int)->0;
            assert(span.0 <= span.1 <= body@.len());
        }
        self.current_index = self.current_index + 1;
        Some(
            MessageView {
                topic,
                time: e.time,
                bag,
                chunk_loc: e.chunk_header_pos,
                chunk_index: e.chunk_index,
                start_index: start,
                end_index: end,
            },
        )
    }
}

/// The topic of the connection `id` of `bag`.
fn connection_topic<'a>(bag: &'a Bag, id: u32) -> (r: &'a str)
    requires
        bag.wf(),
        bag.metadata@.has_connection(id),
    ensures
        r@ == conn_of(bag.metadata@, id).topic,
{
    let ghost m = bag.metadata@;
    let conns = &bag.metadata.connection_data;
    let mut i: usize = 0;
    while i < conns.len()
        invariant
            bag.wf(),
            m == bag.metadata@,
            conns == &bag.metadata.connection_data,
            m.has_connection(id),
            i <= conns@.len(),
            forall|j: int| 0 <= j < i ==> m.connections[j].connection_id != id,
        decreases conns.len() - i,
    {
        if conns[i].connection_id == id {
            proof {
                lemma_conn_of(m, i as int);
            }
            return conns[i].topic.as_str();
        }
        i = i + 1;
    }
    proof {
        let c = choose|c: int| 0 <= c < m.connections.len() && m.connections[c].connection_id == id;
        assert(m.connections[c].connection_id != id);
    }
    ""
}

impl Bag {
    /// The messages that `query` accepts, in time order; fails with
    /// `UnsupportedMode` on a bag opened for its metadata only.
    pub fn read_messages(&self, query: &Query) -> (r: Result<BagIter<'_>, Error>)
        requires
            self.wf(),
        ensures
            self.chunk_bytes is None ==> (r matches Err(e) && e == Error {
                kind: ErrorKind::UnsupportedMode,
            }),
            self.chunk_bytes is Some ==> (r matches Ok(it) && *it.bag == *self && it.current_index == 0
                && it.wf() && it.index_data@.to_multiset() == selected(
                self.metadata@,
                query@,
            ).to_multiset() && sorted_entries(it.index_data@)),
    {
        BagIter::new(self, query)
    }
}

} // verus!
