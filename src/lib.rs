//! A persistent key-value store: a log-structured engine whose decisions
//! (record layout, index, stale-byte accounting, rotation and compaction)
//! are verified, and an alternative engine backed by an embedded tree.
pub mod command;
pub mod engine;
pub mod error;
pub mod json;
pub mod laws;
pub mod order;
pub mod protocol;
pub mod replay;
pub mod segment;
pub mod sled_engine;
pub mod store;

pub use command::{Command, CommandPos};
pub use engine::{choose_engine, Engine};
pub use error::KvsError;
pub use protocol::{encode_response, Request};
pub use segment::{get_log_path, parse_segment_id, segment_ids, SegmentFile};
pub use sled_engine::SledKvsEngine;
pub use store::{locate_records, value_of, Append, Compaction, IndexEntry, LogEngine, Move, Record};
