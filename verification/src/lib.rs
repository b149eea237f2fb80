//! A persistent key-value storage engine: an append-only command log
//! with an in-memory keydir mapping live keys to log offsets.
//!
//! The store core works on an in-memory image of the log and reports
//! every change it makes to the log as a [`LogAction`], so that a
//! host program can mirror the same change onto a file.

use vstd::prelude::*;

mod codec;
mod engine;
mod error;
mod keydir;
mod kiwi;
mod log;
mod server;
mod sled_engine;
mod store;
mod thread_pool;

pub use codec::{decode_command, encode_command, Command};
pub use engine::{KvStore, KvsEngine};
pub use error::Error;
pub use keydir::Keydir;
pub use kiwi::{KiwiEngine, KiwiStore, KiwiStoreInner, SledStore, SledStoreInner};
pub use server::{get_reply, remove_reply, Kvs};
pub use sled_engine::{SledKvsEngine, SledKvsEngineInner};
pub use store::{KvStoreInner, LogAction};
pub use thread_pool::{RayonThreadPool, ThreadPool};

verus! {

/// The compaction threshold: once the log grows past this many bytes,
/// the next set triggers a rewrite that drops superseded records.
pub const COMPACTION_THRESHOLD: u64 = 84000;

} // verus!
