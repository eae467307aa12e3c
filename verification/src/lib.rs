//! Connection-lifecycle core of a peer-to-peer node.
//!
//! The crate tracks every live network connection and the node's own
//! lifecycle status. It provides:
//!
//! - [`status::Status`] and [`status::RawStatus`]: the node's lifecycle
//!   status, stored in a shared atomic cell so that every subsystem can
//!   read and update it without locking;
//! - [`connections::Connection`]: the per-connection handle whose
//!   transport and I/O capabilities are claimed exactly once by the
//!   protocol layers attached to the connection;
//! - [`connections::Connections`]: the registry of live connections keyed
//!   by peer address, the single source of truth for which peers are
//!   currently connected;
//! - [`connections::ConnectionSide`]: which end established a connection.

pub mod connections;
pub mod status;
