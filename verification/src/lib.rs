//! A DNS message-processing core: the wire codec, the response builder, the
//! resolution policy and the assembly of answers, with machine-checked contracts.

pub mod database;
pub mod error;
pub mod nameserver;
pub mod protocol;
pub mod resolver;
pub mod server;

pub use error::DnsError;
