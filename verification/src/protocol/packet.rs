//! DNS messages and their parts.

pub mod builder;
pub mod flags;
pub mod header;
pub mod packet;
pub mod question;
pub mod record_type;
pub mod resource_record;

pub use builder::PacketBuilder;
pub use flags::{Flags, FlagsVec, HeaderFlags, OpCode, ResponseCode};
pub use header::PacketHeader;
pub use packet::Packet;
pub use question::Question;
pub use record_type::RecordType;
pub use resource_record::ResourceRecord;
