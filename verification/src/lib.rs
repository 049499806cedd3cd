//! Peer-identity registration core for a rendezvous server.
//!
//! The crate keeps a coherent in-process directory of peer identity
//! records in front of a durable peer store, decides whether an incoming
//! registration is a first insert or an update of an existing record,
//! and tracks per-source-address registration velocity and identity
//! churn so that abusive addresses can be blocked for a while.
//!
//! All storage traffic and clock reads happen outside the crate: callers
//! hand in the rows a lookup returned, the outcome of a write, and the
//! current time, and the crate states and proves what it does with them.

pub mod strmap;
pub mod infojson;
pub mod types;
pub mod directory;
pub mod guard;
