//! The metadata tables of a bag and what can be derived from them.
use vstd::prelude::*;

use crate::records::{BagHeader, ChunkInfoData, ConnectionData, IndexData};
use crate::time::Time;

verus! {

/// What the bag says of one chunk: its header joined with its chunk-info
/// record.
#[derive(Debug, Clone)]
pub struct ChunkMetadata {
    pub compression: String,
    pub uncompressed_size: u32,
    pub compressed_size: u32,
    pub chunk_header_pos: u64,
    pub chunk_data_pos: u64,
    pub start_time: Time,
    pub end_time: Time,
    pub connection_count: u32,
    pub message_counts: Vec<ChunkInfoData>,
}

/// A chunk as the contracts see it.
pub struct ChunkView {
    pub compression: Seq<char>,
    pub uncompressed_size: u32,
    pub compressed_size: u32,
    pub chunk_header_pos: u64,
    pub chunk_data_pos: u64,
    pub start_time: Time,
    pub end_time: Time,
    pub connection_count: u32,
    pub message_counts: Seq<ChunkInfoData>,
}

impl View for ChunkMetadata {
    type V = ChunkView;

    open spec fn view(&self) -> ChunkView {
        ChunkView {
            compression: self.compression@,
            uncompressed_size: self.uncompressed_size,
            compressed_size: self.compressed_size,
            chunk_header_pos: self.chunk_header_pos,
            chunk_data_pos: self.chunk_data_pos,
            start_time: self.start_time,
            end_time: self.end_time,
            connection_count: self.connection_count,
            message_counts: self.message_counts@,
        }
    }
}

/// A connection as the contracts see it.
pub struct ConnectionView {
    pub connection_id: u32,
    pub topic: Seq<char>,
    pub data_type: Seq<char>,
    pub md5sum: Seq<char>,
    pub message_definition: Seq<char>,
    pub caller_id: Option<Seq<char>>,
    pub latching: bool,
}

impl View for ConnectionData {
    type V = ConnectionView;

    open spec fn view(&self) -> ConnectionView {
        ConnectionView {
            connection_id: self.connection_id,
            topic: self.topic@,
            data_type: self.data_type@,
            md5sum: self.md5sum@,
            message_definition: self.message_definition@,
            caller_id: match self.caller_id {
                Some(s) => Some(s@),
                None => None,
            },
            latching: self.latching,
        }
    }
}

/// The metadata of a bag, read without loading its chunks.
#[derive(Debug)]
pub struct BagMetadata {
    /// The format version; only `2.0` is read.
    pub version: String,
    pub bag_header: BagHeader,
    /// The chunks, in the order of the file.
    pub chunk_metadata: Vec<ChunkMetadata>,
    /// The connections, in the order of the file.
    pub connection_data: Vec<ConnectionData>,
    /// The index entries of all connections, in the order of the file.
    pub index_data: Vec<IndexData>,
    /// The number of bytes of the bag.
    pub num_bytes: u64,
}

/// Metadata as the contracts see it.
pub struct MetadataView {
    pub bag_header: BagHeader,
    pub chunks: Seq<ChunkView>,
    pub connections: Seq<ConnectionView>,
    pub index: Seq<IndexData>,
}

impl View for BagMetadata {
    type V = MetadataView;

    open spec fn view(&self) -> MetadataView {
        MetadataView {
            bag_header: self.bag_header,
            chunks: self.chunk_metadata@.map_values(|c: ChunkMetadata| c@),
            connections: self.connection_data@.map_values(|c: ConnectionData| c@),
            index: self.index_data@,
        }
    }
}

impl MetadataView {
    /// The tables agree with each other and with the bag header.
    pub open spec fn wf(self) -> bool {
        &&& self.chunks.len() == self.bag_header.chunk_count
        &&& self.connections.len() == self.bag_header.conn_count
        &&& forall|i: int, j: int|
            0 <= i < j < self.chunks.len() ==> self.chunks[i].chunk_header_pos
                < self.chunks[j].chunk_header_pos
        &&& forall|i: int, j: int|
            0 <= i < j < self.connections.len() ==> self.connections[i].connection_id
                != self.connections[j].connection_id
        &&& forall|k: int| 0 <= k < self.index.len() ==> self.entry_is_placed(#[trigger] self.index[k])
    }

    /// The entry `e` points at a chunk of the bag and belongs to a connection
    /// of the bag.
    pub open spec fn entry_is_placed(self, e: IndexData) -> bool {
        &&& e.chunk_index < self.chunks.len()
        &&& self.chunks[e.chunk_index as int].chunk_header_pos == e.chunk_header_pos
        &&& self.has_connection(e.conn_id)
    }

    pub open spec fn has_connection(self, id: u32) -> bool {
        exists|c: int| 0 <= c < self.connections.len() && self.connections[c].connection_id == id
    }
}

impl BagMetadata {
    pub open spec fn wf(&self) -> bool {
        self@.wf()
    }
}

} // verus!
