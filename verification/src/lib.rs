//! The drainer of sharded append-only log streams.
//!
//! Writers append change records to the streams of a shared store. A
//! drainer instance goes round the shards: it takes a shard's lock flag,
//! reads a batch of the oldest entries, has a persister apply the batch,
//! trims the stream through the last entry of the batch, and gives the flag
//! back. Any number of instances may run at once; the flag keeps them apart.
//!
//! - [`rotation`]: the round over the shard indices.
//! - [`naming`]: the names of a shard's stream and of its lock flag.
//! - [`gate`]: what a reply to an acquire attempt means.
//! - [`parser`]: what a read result holds for one stream.
//! - [`trimmer`]: how many entries a trim through an id removes.
//! - [`drain_loop`]: the drain cycle of one instance as a state machine. It
//!   asks for one request at a time and takes the answer; it performs none.
//! - [`store_model`], [`entry_id`]: the store as a value, and the order of
//!   entry ids.
//! - [`memory_store`], [`persister`]: a store and a persister in memory.
//! - [`system`], [`fleet`]: instances together with the store, and what
//!   holds of whole attempts and of any number of instances.
//! - [`attempt`]: one whole attempt, run in memory.

pub mod attempt;
pub mod drain_loop;
pub mod entry_id;
pub mod errors;
pub mod fleet;
pub mod gate;
pub mod memory_store;
pub mod naming;
pub mod parser;
pub mod persister;
pub mod rotation;
pub mod store_model;
pub mod stream;
pub mod system;
pub mod trimmer;
