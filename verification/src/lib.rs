//! Verified core of a line-based TCP broadcast relay.
//!
//! The library holds the relay's logic: building the wire messages,
//! framing a byte stream into length-bounded lines, the registry of live
//! connections, and the dispatcher that turns one event into the registry
//! mutation and the sends it calls for. The surrounding process (sockets,
//! the accept/read race, shutdown) lives outside and drives this logic
//! with plain values.

pub mod dispatch;
pub mod framer;
pub mod laws;
pub mod msg;
pub mod registry;

pub use msg::build_login_msg;
pub use msg::build_message_msg;
