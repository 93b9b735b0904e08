//! Internet Protocol.

pub mod protocol;
pub mod v6;

pub use self::protocol::Protocol;
