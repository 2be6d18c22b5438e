//! Views of single messages inside loaded chunk bodies.
use vstd::prelude::*;

use crate::bag::{message_span, Bag};
use crate::errors::Error;
use crate::metadata::{ConnectionView, MetadataView};
use crate::records::IndexData;
use crate::time::Time;

verus! {

/// A message type that payloads can be read into.
pub trait Msg {}

/// The connection of `m` whose id is `id`.
pub open spec fn conn_of(m: MetadataView, id: u32) -> ConnectionView {
    m.connections[choose|c: int| 0 <= c < m.connections.len() && m.connections[c].connection_id == id]
}

/// A message of a loaded bag: its topic and time, and where its payload
/// lies in the chunk bodies of the bag.
pub struct MessageView<'a> {
    pub topic: &'a str,
    pub time: Time,
    pub bag: &'a Bag,
    pub chunk_loc: u64,
    pub chunk_index: usize,
    pub start_index: usize,
    pub end_index: usize,
}

impl<'a> MessageView<'a> {
    /// The view points into a loaded chunk body of its bag.
    pub open spec fn wf(&self) -> bool {
        &&& self.bag.wf()
        &&& self.bag.chunk_bytes is Some
        &&& self.chunk_index < self.bag.bodies()->0.len()
        &&& self.start_index <= self.end_index <= self.bag.bodies()->0[self.chunk_index as int].len()
    }

    /// The view shows the message that index entry `e` locates.
    pub open spec fn shows(&self, e: IndexData) -> bool {
        let m = self.bag.metadata@;
        let span = message_span(self.bag.bodies()->0[e.chunk_index as int], e.offset as int);
        &&& self.topic@ == conn_of(m, e.conn_id).topic
        &&& self.time == e.time
        &&& self.chunk_loc == e.chunk_header_pos
        &&& self.chunk_index == e.chunk_index
        &&& span == Some((self.start_index as int, self.end_index as int))
    }

    /// The bytes of the view's payload.
    pub open spec fn payload(&self) -> Seq<u8> {
        self.bag.bodies()->0[self.chunk_index as int].subrange(
            self.start_index as int,
            self.end_index as int,
        )
    }

    /// The uncompressed body of the chunk that holds the message.
    pub fn chunk_bytes(&self) -> (r: &'a [u8])
        requires
            self.wf(),
        ensures
            r@ == self.bag.bodies()->0[self.chunk_index as int],
    {
        let bag: &'a Bag = self.bag;
        match &bag.chunk_bytes {
            Some(bs) => bs[self.chunk_index].as_slice(),
            None => {
                assert(false);
                &[]
            },
        }
    }

    /// The payload of the message: its four-byte length, then its data.
    pub fn raw_bytes(&self) -> (r: Result<&'a [u8], Error>)
        requires
            self.wf(),
        ensures
            r matches Ok(b) && b@ == self.payload(),
    {
        let body = self.chunk_bytes();
        Ok(&body[self.start_index..self.end_index])
    }
}

} // verus!
