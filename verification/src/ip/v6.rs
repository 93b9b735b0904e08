//! Internet Protocol, version 6.

pub mod address;
pub mod builder;
pub mod packet;


pub use self::address::Address;
pub use self::builder::Builder;
pub use self::packet::Packet;

