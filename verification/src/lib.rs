//! A loopback IPC server core: endpoint selection, the acceptor's decisions,
//! the event router and the dispatcher's control loop.

pub mod acceptor;
pub mod endpoint;
pub mod events;
pub mod router;
pub mod server;
