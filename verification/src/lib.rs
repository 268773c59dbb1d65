//! Core model of a unicast transport manager and the admin space of a
//! peer-to-peer router.
//!
//! The library owns the lifecycle of per-protocol link factories, the
//! bounded table of incoming links under admission, and the table of
//! established transports keyed by peer identity; it also models the
//! queryable admin space that renders router introspection documents.
//! All decisions are verified; the surrounding I/O (sockets, timers,
//! task spawning) is left to the embedding runtime.

pub mod adminspace;
pub mod config;
pub mod incoming;
pub mod manager;
pub mod rname;
pub mod text;
pub mod transport;
pub mod types;
