//! Migration of a keyspace between a clustered key-value store and an on-disk
//! archive, or between two stores.
//!
//! Every record travels from the source through a bounded channel to the
//! destination. The library holds the decisions of such a run and proves
//! what they come to; it never waits and never touches a socket or a file.
//! Each side of a run is a conversation: the endpoint names the next
//! request, a driver carries it out and answers.
//!
//! - `types`: the record.
//! - `error`: why a run may end without success.
//! - `archive`: the format of the archive, encoding and decoding.
//! - `traits`: requests, answers, the states of a run, and the two
//!   capabilities of an endpoint.
//! - `file`: the archive endpoint.
//! - `redis`: the store endpoint.
//! - `channel`: the bounded channel between the two sides.
//! - `store`: what replaying records does to a store.
//! - `pipeline`: whole runs of one side, and what they send, replay or
//!   write when every request succeeds.
//! - `migration`: endpoint selection, the reported outcome, and what a
//!   migration from a store into an archive and back leaves behind.

pub mod archive;
pub mod channel;
pub mod error;
pub mod file;
pub mod migration;
pub mod pipeline;
pub mod redis;
pub mod store;
pub mod traits;
pub mod types;
