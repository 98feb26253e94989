//! The wire protocol: messages, their parts, and the helpers they share.

pub mod answer;
pub mod name;
pub mod packet;
pub mod util;
pub mod wire;
