//! The core of a publish/subscribe and query middleware: keys and their
//! intersection, the tables of a session, the session as a state machine
//! that tells its driver what to send and whom to hand what, and what
//! holds of every run of it; beside it, the configuration of a session and
//! what a link over TLS needs to know.

pub mod config;
pub mod error;
pub mod key;
pub mod laws;
pub mod link;
pub mod locator;
pub mod model;
pub mod plugins;
pub mod proto;
pub mod runtime;
pub mod session;
pub mod tables;
pub mod types;
