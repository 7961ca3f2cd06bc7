//! Signed agent-to-agent messaging: the wire format, the trust store, the
//! verification pipeline, the message store and the decisions of the daemon
//! and of the command line.

pub mod authority;
pub mod cli;
pub mod clock;
pub mod command_laws;
pub mod config;
pub mod crypto;
pub mod daemon;
pub mod error;
pub mod grant;
pub mod identity;
pub mod ipc;
pub mod json;
pub mod kem;
pub mod laws;
pub mod message;
pub mod mqtt;
pub mod names;
pub mod pair;
pub mod paths;
pub mod presence;
pub mod render;
pub mod store;
pub mod stream;
pub mod text;
pub mod token;
pub mod trust;
pub mod wire;

pub use error::{Error, RejectReason};
