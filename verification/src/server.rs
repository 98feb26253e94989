//! Answering a datagram: recovery from malformed input, the assembly of the
//! response, and the order in which the outside world is consulted.

pub mod exchange;
pub mod handle_packet;
pub mod serve;
