//! What holds of every bag and every query, proved over the contracts of
//! the opening functions and of `Bag::read_messages`.
use vstd::prelude::*;

use crate::bag::{chunk_at, load_bodies, spec_open_eager};
use crate::chunks::spec_chunk_body;
use crate::errors::{Error, ErrorKind};
use crate::metadata::{ChunkView, ConnectionView, MetadataView};
use crate::msgs::{conn_of, MessageView};
use crate::parsing::le_u32;
use crate::query::{
    accepts, entry_le, in_window, lemma_conn_of, selected, selects_connection, sorted_entries,
    QueryView,
};
use crate::records::{spec_bag_header, spec_header_op, BagHeader, IndexData, OpCode};
use crate::walker::{empty_walk, magic, spec_open, starts_with_magic, step, walk};

verus! {

/// The header of the first record after the magic line, if it fits.
pub open spec fn first_record_header(b: Seq<u8>) -> Option<Seq<u8>> {
    let p = magic().len() as int;
    if p + 4 > b.len() || p + 4 + le_u32(b, p) > b.len() {
        None
    } else {
        Some(b.subrange(p + 4, p + 4 + le_u32(b, p)))
    }
}

/// A byte stream that does not start with the v2.0 magic line is refused
/// as no bag, whichever way it is opened.
pub proof fn lemma_magic_required(b: Seq<u8>)
    requires
        !starts_with_magic(b),
    ensures
        spec_open(b) == Err::<MetadataView, Error>(Error { kind: ErrorKind::NotARosbag }),
        spec_open_eager(b) == Err::<(MetadataView, Seq<Seq<u8>>), Error>(
            Error { kind: ErrorKind::NotARosbag },
        ),
{
}

/// A bag whose header record, the first after the magic line, has an
/// `index_pos` of zero is refused as unindexed, whichever way it is opened.
pub proof fn lemma_index_required(b: Seq<u8>, h: BagHeader)
    requires
        starts_with_magic(b),
        first_record_header(b) is Some,
        spec_header_op(first_record_header(b)->0) == Ok::<OpCode, crate::errors::ParseError>(
            OpCode::BagHeader,
        ),
        spec_bag_header(first_record_header(b)->0) == Ok::<BagHeader, crate::errors::ParseError>(h),
        h.index_pos == 0,
    ensures
        spec_open(b) == Err::<MetadataView, Error>(Error { kind: ErrorKind::UnindexedBag }),
        spec_open_eager(b) == Err::<(MetadataView, Seq<Seq<u8>>), Error>(
            Error { kind: ErrorKind::UnindexedBag },
        ),
{
    reveal(step);
}

/// Every bag that opens has as many chunks, and as many chunk-info
/// records, as its header announces, and as many connections.
pub proof fn lemma_counts_balance(b: Seq<u8>)
    requires
        spec_open(b) is Ok,
    ensures
        ({
            let m = spec_open(b)->Ok_0;
            let st = walk(b, magic().len() as int, empty_walk())->Ok_0;
            &&& m.chunks.len() == m.bag_header.chunk_count
            &&& st.chunks.len() == m.bag_header.chunk_count
            &&& st.infos.len() == m.bag_header.chunk_count
            &&& m.connections.len() == m.bag_header.conn_count
        }),
{
}

/// The messages that a query yields come in non-decreasing time.
pub proof fn lemma_time_order(s: Seq<IndexData>)
    requires
        sorted_entries(s),
    ensures
        forall|i: int, j: int|
            0 <= i < j < s.len() ==> s[i].time.spec_nanos() <= s[j].time.spec_nanos(),
{
    assert forall|i: int, j: int| 0 <= i < j < s.len() implies s[i].time.spec_nanos()
        <= s[j].time.spec_nanos() by {
        assert(entry_le(s[i], s[j]));
    }
}

/// Every message that a query yields is a message of the bag that the
/// query accepts: its topic and type are among the query's, if it names
/// any, and its time lies within the query's bounds.
pub proof fn lemma_query_sound(m: MetadataView, q: QueryView, s: Seq<IndexData>)
    requires
        s.to_multiset() == selected(m, q).to_multiset(),
    ensures
        forall|e: IndexData| #[trigger] s.contains(e) ==> m.index.contains(e) && accepts(m, q, e),
{
    broadcast use vstd::seq_lib::group_to_multiset_ensures;

    assert forall|e: IndexData| #[trigger] s.contains(e) implies m.index.contains(e) && accepts(m, q, e) by {
        assert(s.to_multiset().count(e) > 0);
        assert(selected(m, q).contains(e));
        m.index.lemma_filter_contains_rev(|x: IndexData| accepts(m, q, x), e);
        let k = choose|k: int| 0 <= k < selected(m, q).len() && selected(m, q)[k] == e;
        m.index.filter_lemma(|x: IndexData| accepts(m, q, x));
    }
}

/// No message of the bag that a query accepts is left out.
pub proof fn lemma_query_complete(m: MetadataView, q: QueryView, s: Seq<IndexData>)
    requires
        s.to_multiset() == selected(m, q).to_multiset(),
    ensures
        forall|e: IndexData| m.index.contains(e) && accepts(m, q, e) ==> #[trigger] s.contains(e),
{
    broadcast use vstd::seq_lib::group_to_multiset_ensures;

    assert forall|e: IndexData| m.index.contains(e) && accepts(m, q, e) implies #[trigger] s.contains(e) by {
        let k = choose|k: int| 0 <= k < m.index.len() && m.index[k] == e;
        m.index.lemma_filter_contains(|x: IndexData| accepts(m, q, x), k);
        assert(selected(m, q).to_multiset().count(e) > 0);
    }
}

/// A query that names topics `T` and types `Y`, and no time bounds, yields
/// as many messages as the bag has on a topic of `T` with a type of `Y`.
pub proof fn lemma_intersection(m: MetadataView, q: QueryView, s: Seq<IndexData>)
    requires
        q.topics is Some,
        q.types is Some,
        q.start_time is None,
        q.end_time is None,
        s.to_multiset() == selected(m, q).to_multiset(),
    ensures
        s.len() == m.index.filter(
            |e: IndexData|
                q.topics->0.contains(conn_of(m, e.conn_id).topic) && q.types->0.contains(
                    conn_of(m, e.conn_id).data_type,
                ),
        ).len(),
{
    broadcast use vstd::seq_lib::group_to_multiset_ensures;

    let by_query = |e: IndexData| accepts(m, q, e);
    let by_names = |e: IndexData|
        q.topics->0.contains(conn_of(m, e.conn_id).topic) && q.types->0.contains(
            conn_of(m, e.conn_id).data_type,
        );
    assert(by_query =~= by_names);
    assert(s.len() == s.to_multiset().len());
    assert(selected(m, q).len() == selected(m, q).to_multiset().len());
}

/// `entry_le` orders index entries totally: two entries that each come no
/// later than the other are the same entry.
pub proof fn lemma_entry_le_antisymmetric(a: IndexData, b: IndexData)
    requires
        entry_le(a, b),
        entry_le(b, a),
    ensures
        a == b,
{
    assert(a.time.secs == b.time.secs);
    assert(a.time.nsecs == b.time.nsecs);
}

/// Two sorted sequences of the same entries are equal: reading a query
/// twice yields the same messages in the same order.
pub proof fn lemma_iteration_repeatable(a: Seq<IndexData>, b: Seq<IndexData>)
    requires
        sorted_entries(a),
        sorted_entries(b),
        a.to_multiset() == b.to_multiset(),
    ensures
        a == b,
    decreases a.len(),
{
    broadcast use vstd::seq_lib::group_to_multiset_ensures;

    assert(a.len() == a.to_multiset().len());
    assert(b.len() == b.to_multiset().len());
    if a.len() == 0 {
        assert(a =~= b);
    } else {
        let x = a[0];
        let y = b[0];
        assert(b.to_multiset().count(x) > 0);
        assert(b.contains(x));
        let j = choose|j: int| 0 <= j < b.len() && b[j] == x;
        if j > 0 {
            assert(entry_le(b[0], b[j]));
        }
        assert(a.to_multiset().count(y) > 0);
        assert(a.contains(y));
        let i = choose|i: int| 0 <= i < a.len() && a[i] == y;
        if i > 0 {
            assert(entry_le(a[0], a[i]));
        }
        lemma_entry_le_antisymmetric(x, y);
        assert(a.remove(0) =~= a.drop_first());
        assert(b.remove(0) =~= b.drop_first());
        assert(a.drop_first().to_multiset() == b.drop_first().to_multiset());
        assert(sorted_entries(a.drop_first()));
        assert(sorted_entries(b.drop_first()));
        lemma_iteration_repeatable(a.drop_first(), b.drop_first());
        assert forall|i: int| 0 <= i < a.len() implies a[i] == b[i] by {
            if i > 0 {
                assert(a[i] == a.drop_first()[i - 1]);
                assert(b[i] == b.drop_first()[i - 1]);
            }
        }
        assert(a =~= b);
    }
}

/// The bodies loaded for chunks `cs` are, one by one, what each chunk
/// loads to.
pub proof fn lemma_load_bodies_each(b: Seq<u8>, cs: Seq<ChunkView>)
    requires
        load_bodies(b, cs) is Ok,
    ensures
        load_bodies(b, cs)->Ok_0.len() == cs.len(),
        forall|i: int|
            0 <= i < cs.len() ==> chunk_at(b, #[trigger] cs[i]) == Ok::<Seq<u8>, Error>(
                load_bodies(b, cs)->Ok_0[i],
            ),
    decreases cs.len(),
{
    if cs.len() > 0 {
        lemma_load_bodies_each(b, cs.drop_last());
        assert forall|i: int| 0 <= i < cs.len() implies chunk_at(b, #[trigger] cs[i]) == Ok::<
            Seq<u8>,
            Error,
        >(load_bodies(b, cs)->Ok_0[i]) by {
            if i < cs.len() - 1 {
                assert(cs[i] == cs.drop_last()[i]);
            }
        }
    }
}

/// Every LZ4 chunk of a bag that opens eagerly decompresses to exactly its
/// declared uncompressed size.
pub proof fn lemma_decompression_exact(b: Seq<u8>)
    requires
        spec_open_eager(b) is Ok,
    ensures
        ({
            let (m, bodies) = spec_open_eager(b)->Ok_0;
            &&& bodies.len() == m.chunks.len()
            &&& forall|i: int|
                0 <= i < m.chunks.len() && m.chunks[i].compression == "lz4"@ ==> (
                #[trigger] bodies[i]).len() == m.chunks[i].uncompressed_size
        }),
{
    let m = spec_open(b)->Ok_0;
    lemma_load_bodies_each(b, m.chunks);
    reveal_strlit("none");
    reveal_strlit("lz4");
    assert("lz4"@ != "none"@) by {
        assert("lz4"@.len() != "none"@.len());
    }
}

/// The messages of `idx` within the query's time bounds, counted for each
/// connection of `cs` that the query selects, and summed.
pub open spec fn per_connection_count(idx: Seq<IndexData>, q: QueryView, cs: Seq<ConnectionView>) -> int
    decreases cs.len(),
{
    if cs.len() == 0 {
        0
    } else {
        per_connection_count(idx, q, cs.drop_last()) + if selects_connection(q, cs.last()) {
            idx.filter(
                |e: IndexData| e.conn_id == cs.last().connection_id && in_window(q, e.time),
            ).len() as int
        } else {
            0
        }
    }
}

/// How many of `cs` the query selects, carry the connection of `e`, while
/// `e` lies within the query's time bounds.
pub open spec fn hits(e: IndexData, q: QueryView, cs: Seq<ConnectionView>) -> int
    decreases cs.len(),
{
    if cs.len() == 0 {
        0
    } else {
        hits(e, q, cs.drop_last()) + if selects_connection(q, cs.last())
            && cs.last().connection_id == e.conn_id && in_window(q, e.time) {
            1int
        } else {
            0
        }
    }
}

pub proof fn lemma_count_empty(q: QueryView, cs: Seq<ConnectionView>)
    ensures
        per_connection_count(Seq::empty(), q, cs) == 0,
    decreases cs.len(),
{
    reveal(Seq::filter);
    if cs.len() > 0 {
        lemma_count_empty(q, cs.drop_last());
    }
}

pub proof fn lemma_count_push(idx: Seq<IndexData>, e: IndexData, q: QueryView, cs: Seq<ConnectionView>)
    ensures
        per_connection_count(idx.push(e), q, cs) == per_connection_count(idx, q, cs) + hits(e, q, cs),
    decreases cs.len(),
{
    reveal(Seq::filter);
    if cs.len() > 0 {
        lemma_count_push(idx, e, q, cs.drop_last());
        assert(idx.push(e).drop_last() =~= idx);
    }
}

pub proof fn lemma_hits_one(m: MetadataView, e: IndexData, q: QueryView, n: int)
    requires
        m.wf(),
        0 <= n <= m.connections.len(),
    ensures
        hits(e, q, m.connections.take(n)) == if (exists|j: int|
            0 <= j < n && m.connections[j].connection_id == e.conn_id) && selects_connection(
            q,
            conn_of(m, e.conn_id),
        ) && in_window(q, e.time) {
            1int
        } else {
            0
        },
    decreases n,
{
    let cs = m.connections;
    if n > 0 {
        lemma_hits_one(m, e, q, n - 1);
        assert(cs.take(n).drop_last() =~= cs.take(n - 1));
        if cs[n - 1].connection_id == e.conn_id {
            lemma_conn_of(m, n - 1);
            assert(!exists|j: int| 0 <= j < n - 1 && cs[j].connection_id == e.conn_id);
        } else {
            assert((exists|j: int| 0 <= j < n && cs[j].connection_id == e.conn_id) == (exists|j: int|
                0 <= j < n - 1 && cs[j].connection_id == e.conn_id));
        }
    }
}

pub proof fn lemma_selected_count(m: MetadataView, q: QueryView, k: int)
    requires
        m.wf(),
        0 <= k <= m.index.len(),
    ensures
        m.index.take(k).filter(|e: IndexData| accepts(m, q, e)).len() == per_connection_count(
            m.index.take(k),
            q,
            m.connections,
        ),
    decreases k,
{
    reveal(Seq::filter);
    if k == 0 {
        lemma_count_empty(q, m.connections);
        assert(m.index.take(0) =~= Seq::<IndexData>::empty());
    } else {
        lemma_selected_count(m, q, k - 1);
        let e = m.index[k - 1];
        assert(m.index.take(k) =~= m.index.take(k - 1).push(e));
        assert(m.index.take(k).drop_last() =~= m.index.take(k - 1));
        lemma_count_push(m.index.take(k - 1), e, q, m.connections);
        assert(m.entry_is_placed(m.index[k - 1]));
        lemma_hits_one(m, e, q, m.connections.len() as int);
        assert(m.connections.take(m.connections.len() as int) =~= m.connections);
    }
}

/// A query yields as many messages as, summed over the connections that
/// its topics and types select, each connection has messages within its
/// time bounds.
pub proof fn lemma_count_by_connection(m: MetadataView, q: QueryView, s: Seq<IndexData>)
    requires
        m.wf(),
        s.to_multiset() == selected(m, q).to_multiset(),
    ensures
        s.len() == per_connection_count(m.index, q, m.connections),
{
    broadcast use vstd::seq_lib::group_to_multiset_ensures;

    lemma_selected_count(m, q, m.index.len() as int);
    assert(m.index.take(m.index.len() as int) =~= m.index);
    assert(s.len() == s.to_multiset().len());
    assert(selected(m, q).len() == selected(m, q).to_multiset().len());
}

/// Two views of the same bag that show the same index entry agree on the
/// topic, the time and the payload bytes: with `lemma_iteration_repeatable`,
/// reading a query twice yields the same topics, times and bytes.
pub proof fn lemma_views_agree(a: MessageView, b: MessageView, e: IndexData)
    requires
        *a.bag == *b.bag,
        a.shows(e),
        b.shows(e),
    ensures
        a.topic@ == b.topic@,
        a.time == b.time,
        a.payload() == b.payload(),
{
}

} // verus!
