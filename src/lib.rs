//! Wire-format codec for a single DNS resource record.

pub mod wire;
pub mod codes;
pub mod name;
pub mod rdata;
pub mod resource_record;

pub use codes::{SimpleDnsError, CLASS, QCLASS, QTYPE};
pub use name::Name;
pub use rdata::{CharacterString, RData, A, AAAA, NULL};
pub use resource_record::ResourceRecord;
