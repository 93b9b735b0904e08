//! Layered construction and zero-copy parsing of network packets.
//!
//! A builder writes its header into a shared buffer, hands the buffer to the
//! builder of the protocol it carries, and leaves behind a patch that fills in
//! lengths and checksums once every layer has written its bytes. A packet view
//! reads the fields of one layer out of a byte buffer without copying it.

pub mod buffer;
pub mod builder;
pub mod endian;
pub mod error;
pub mod ip;
pub mod packet;
pub mod udp;
