//! Reader for ROS bag v2.0 files: record parsing, the bag's metadata tables,
//! chunk loading and time-ordered, query-filtered message iteration.

pub mod bag;
pub mod chunks;
pub mod errors;
pub mod fields;
pub mod laws;
pub mod metadata;
pub mod msgs;
pub mod parsing;
pub mod query;
pub mod records;
pub mod stats;
pub mod std_msgs;
pub mod time;
pub mod walker;

pub use bag::{Bag, DecompressedBag};
pub use errors::{BagDefect, Error, ErrorKind, ParseError};
pub use fields::{field_sep_index, parse_field};
pub use metadata::{BagMetadata, ChunkMetadata};
pub use msgs::{MessageView, Msg};
pub use query::{BagIter, Query};
pub use records::{ConnectionData, IndexData, OpCode};
pub use stats::CompressionInfo;
pub use time::{Duration, RosDuration, Time};
pub use walker::version_check;
