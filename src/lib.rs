//! A persistent key/value store: a log-structured storage engine, an
//! embedded sorted-map backend, the request/response protocol spoken between
//! client and server, and the bookkeeping of a self-healing worker pool.
//!
//! The library decides and computes; whoever embeds it does the file,
//! socket and thread work that its results call for.
use vstd::prelude::*;

pub mod codec;
pub mod config;
pub mod engine;
pub mod error;
pub mod index;
pub mod kv;
pub mod protocol;
pub mod segment;
pub mod sled_engine;
pub mod thread_pool;

pub use codec::{Command, Op};
pub use config::{get_engine, parse_engine_record, EngineType};
pub use engine::{serve_request, KvsEngine};
pub use error::KvError;
pub use index::LogPointer;
pub use kv::{read_value, KvStore, Written, COMPACT_THRESHOLD};
pub use protocol::{Request, Response};
pub use segment::{get_logfile, log_path, SegmentPlan};
pub use sled_engine::SledKvsEngine;
pub use thread_pool::{
    pool_size, ControlMessage, Monitor, NaiveThreadPool, RayonThreadPool, ThreadPoolMessage,
};

verus! {

} // verus!
