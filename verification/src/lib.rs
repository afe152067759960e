//! Transport establishment without the transport: preconnections, candidate
//! ranking and racing, connection and listener life cycles, and message
//! framing, all as plain state and pure decisions that a driver carries out.

pub mod connection;
pub mod endpoint;
pub mod establishment;
pub mod framer;
pub mod http;
pub mod listener;
pub mod preconnection;
pub mod properties;

pub use crate::connection::Connection;
pub use crate::listener::Listener;
pub use crate::preconnection::Preconnection;
