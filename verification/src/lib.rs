//! A fixed-capacity page cache: a frame store, a page catalog kept in a
//! concurrent skip list, LRU-K eviction, and a queue-based I/O protocol
//! expressed as a state machine whose transitions are proved against
//! mathematical models of each component.

pub mod error;
pub mod page;
pub mod policy;
pub mod skip;
pub mod catalog;
pub mod frames;
pub mod engine;
pub mod payload;
pub mod buffer_pool;
pub mod model;
pub mod soundness;
pub mod guarantees;
