//! Big-endian 16-bit fields.

use byteorder::{BigEndian, ByteOrder};
use vstd::prelude::*;
use vstd::slice::slice_subrange;

verus! {

/// The 16-bit number whose big-endian encoding is `hi`, `lo`.
pub open spec fn be16(hi: u8, lo: u8) -> u16 {
    (hi as int * 256 + lo as int) as u16
}

/// The first byte of the big-endian encoding of `value`.
pub open spec fn hi8(value: u16) -> u8 {
    (value as int / 256) as u8
}

/// The second byte of the big-endian encoding of `value`.
pub open spec fn lo8(value: u16) -> u8 {
    (value as int % 256) as u8
}

/// The big-endian 16-bit number found at `at` in `bytes`.
pub open spec fn be16_at(bytes: Seq<u8>, at: int) -> u16
    recommends
        0 <= at,
        at + 2 <= bytes.len(),
{
    be16(bytes[at], bytes[at + 1])
}

/// `bytes` with the big-endian encoding of `value` stored at `at`.
pub open spec fn with_be16(bytes: Seq<u8>, at: int, value: u16) -> Seq<u8>
    recommends
        0 <= at,
        at + 2 <= bytes.len(),
{
    bytes.update(at, hi8(value)).update(at + 1, lo8(value))
}

/// Encoding a number and decoding the two bytes gives the number back.
pub proof fn lemma_be16_of_parts(value: u16)
    ensures
        be16(hi8(value), lo8(value)) == value,
{
}

/// Calls `byteorder`'s `<BigEndian as ByteOrder>::read_u16`, which decodes the
/// first two bytes of the slice as a big-endian number and panics on a
/// shorter slice.
#[verifier::external_body]
fn read_u16(bytes: &[u8]) -> (value: u16)
    requires
        bytes@.len() >= 2,
    ensures
        value == be16(bytes@[0], bytes@[1]),
{
    BigEndian::read_u16(bytes)
}

/// Calls `byteorder`'s `<BigEndian as ByteOrder>::write_u16` on a fresh
/// two-byte array, which it fills with the big-endian encoding of the number.
#[verifier::external_body]
fn write_u16(value: u16) -> (bytes: [u8; 2])
    ensures
        bytes@ == seq![hi8(value), lo8(value)],
{
    let mut bytes = [0u8; 2];
    BigEndian::write_u16(&mut bytes, value);
    bytes
}

/// Reads the big-endian 16-bit number stored at `at`.
pub fn load_u16(data: &[u8], at: usize) -> (value: u16)
    requires
        at + 2 <= data@.len(),
    ensures
        value == be16_at(data@, at as int),
{
    read_u16(slice_subrange(data, at, data.len()))
}

/// Stores `value` at `at` as a big-endian 16-bit number.
pub fn store_u16(data: &mut [u8], at: usize, value: u16)
    requires
        at + 2 <= old(data)@.len(),
    ensures
        final(data)@ == with_be16(old(data)@, at as int, value),
{
    let bytes = write_u16(value);
    data[at] = bytes[0];
    data[at + 1] = bytes[1];
}

} // verus!
