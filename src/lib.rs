//! A minimal single-threaded cooperative scheduler, modelled as verified
//! state machines, with a timer as an example suspension source; the
//! key-value store of a redis-protocol server and the shard choice of a
//! sharded store; and the choice of tracing subscriber.
pub mod scheduler;
pub mod shard;
pub mod store;
pub mod subscriber;
pub mod timer;
