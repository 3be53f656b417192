//! The on-disk table layer of a log-structured key-value store: byte buffers,
//! internal keys, block handles and footers, the table builder and the table
//! cache, each with a verified contract.

pub mod checksum;
pub mod endian;
pub mod filename;
pub mod ikey;
pub mod order;
pub mod slice;
pub mod table;
pub mod version;
