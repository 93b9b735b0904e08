//! User Datagram Protocol.

pub mod builder;
pub mod checksum;

pub use self::builder::Builder;
