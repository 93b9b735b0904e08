//! Reading IPv6 packets.

use crate::endian::{be16_at, load_u16};
use crate::error::ErrorKind;
use crate::ip::v6::address::{groups_at, lemma_octets_of_groups, Address};
use crate::ip::Protocol;
use crate::packet::{store_bytes, Bytes, BytesMut};
use vstd::prelude::*;
use vstd::slice::{slice_subrange, slice_to_vec};

verus! {

/// Smallest size of the header, in octets.
pub const HEADER_MIN: usize = 40;

/// Largest size of the header, in octets.
pub const HEADER_MAX: usize = 40;

/// Smallest size of the payload, in octets.
pub const PAYLOAD_MIN: usize = 0;

/// Largest size of the payload, in octets.
pub const PAYLOAD_MAX: usize = 65535;

/// The version found in the first octet of a header.
pub open spec fn version_of(bytes: Seq<u8>) -> u8
    recommends
        bytes.len() >= 1,
{
    bytes[0] >> 4
}

/// The payload length that a header declares.
pub open spec fn payload_length_of(bytes: Seq<u8>) -> u16
    recommends
        bytes.len() >= 6,
{
    be16_at(bytes, 4)
}

/// The inner protocol that a header names.
pub open spec fn next_header_of(bytes: Seq<u8>) -> Protocol
    recommends
        bytes.len() >= 7,
{
    Protocol::of(bytes[6])
}

/// The hop limit in a header.
pub open spec fn hop_limit_of(bytes: Seq<u8>) -> u8
    recommends
        bytes.len() >= 8,
{
    bytes[7]
}

/// The octets of the source address in a header.
pub open spec fn source_of(bytes: Seq<u8>) -> Seq<u8>
    recommends
        bytes.len() >= 24,
{
    bytes.subrange(8, 24)
}

/// The octets of the destination address in a header.
pub open spec fn destination_of(bytes: Seq<u8>) -> Seq<u8>
    recommends
        bytes.len() >= 40,
{
    bytes.subrange(24, 40)
}

/// Where a packet's payload ends in its buffer: at the end that the header
/// declares, or at the end of the buffer where that comes first.
pub open spec fn payload_end(bytes: Seq<u8>) -> int
    recommends
        bytes.len() >= 40,
{
    if bytes.len() < 40 + payload_length_of(bytes) {
        bytes.len() as int
    } else {
        40 + payload_length_of(bytes)
    }
}

/// A header with its hop limit set to `value`.
pub open spec fn with_hop_limit(bytes: Seq<u8>, value: u8) -> Seq<u8>
    recommends
        bytes.len() >= 8,
{
    bytes.update(7, value)
}

/// A header with its next-header field set to the number of `value`.
pub open spec fn with_next_header(bytes: Seq<u8>, value: Protocol) -> Seq<u8>
    recommends
        bytes.len() >= 7,
{
    bytes.update(6, value.number())
}

/// A header with `value` as its source address.
pub open spec fn with_source(bytes: Seq<u8>, value: Address) -> Seq<u8>
    recommends
        bytes.len() >= 40,
{
    bytes.subrange(0, 8) + value@ + bytes.subrange(24, bytes.len() as int)
}

/// A header with `value` as its destination address.
pub open spec fn with_destination(bytes: Seq<u8>, value: Address) -> Seq<u8>
    recommends
        bytes.len() >= 40,
{
    bytes.subrange(0, 24) + value@ + bytes.subrange(40, bytes.len() as int)
}

/// The payload of a packet: what follows the header, up to `payload_end`.
pub open spec fn payload_of(bytes: Seq<u8>) -> Seq<u8>
    recommends
        bytes.len() >= 40,
{
    bytes.subrange(40, payload_end(bytes))
}

/// Why a buffer is not the header of an IPv6 packet, if it is not: it is too
/// short for one, or it is long enough and names another version.
pub open spec fn header_fault(bytes: Seq<u8>) -> Option<ErrorKind> {
    if bytes.len() < 40 {
        Some(ErrorKind::SmallBuffer)
    } else if version_of(bytes) != 6 {
        Some(ErrorKind::InvalidPacket)
    } else {
        None
    }
}

/// Why a buffer is not a whole IPv6 packet, if it is not: its header is at
/// fault, or it ends before the payload that the header declares.
pub open spec fn packet_fault(bytes: Seq<u8>) -> Option<ErrorKind> {
    if header_fault(bytes) is Some {
        header_fault(bytes)
    } else if bytes.len() < 40 + payload_length_of(bytes) {
        Some(ErrorKind::SmallBuffer)
    } else {
        None
    }
}

/// The header always takes forty octets, and the payload that a header can
/// declare lies within the limits of the payload.
pub proof fn lemma_extents(bytes: Seq<u8>)
    ensures
        HEADER_MIN == 40,
        HEADER_MAX == 40,
        PAYLOAD_MIN <= payload_length_of(bytes) <= PAYLOAD_MAX,
{
}

/// A buffer too short for a header is refused as too small, and so is one
/// that holds the header of an IPv6 packet and ends before the payload that
/// the header declares.
pub proof fn lemma_small_buffer(bytes: Seq<u8>)
    requires
        bytes.len() < 40 || (version_of(bytes) == 6 && bytes.len() < 40 + payload_length_of(bytes)),
    ensures
        packet_fault(bytes) == Some(ErrorKind::SmallBuffer),
        bytes.len() < 40 ==> header_fault(bytes) == Some(ErrorKind::SmallBuffer),
{
}

/// A buffer long enough for a header that names another version than 6 is
/// refused as no packet of this protocol, whatever else it holds.
pub proof fn lemma_wrong_version(bytes: Seq<u8>)
    requires
        bytes.len() >= 40,
        version_of(bytes) != 6,
    ensures
        header_fault(bytes) == Some(ErrorKind::InvalidPacket),
        packet_fault(bytes) == Some(ErrorKind::InvalidPacket),
{
}

/// A buffer that is accepted holds a header of version 6 and all of the
/// payload that the header declares.
pub proof fn lemma_valid(bytes: Seq<u8>)
    ensures
        header_fault(bytes) is None <==> bytes.len() >= 40 && version_of(bytes) == 6,
        packet_fault(bytes) is None <==> bytes.len() >= 40 + payload_length_of(bytes)
            && version_of(bytes) == 6,
        packet_fault(bytes) is None ==> payload_of(bytes).len() == payload_length_of(bytes),
{
}

/// IPv6 packet parser.
#[derive(Clone)]
pub struct Packet<B> {
    buffer: B,
}

impl<B: Bytes> View for Packet<B> {
    type V = Seq<u8>;

    closed spec fn view(&self) -> Seq<u8> {
        self.buffer.bytes()
    }
}

impl<B: Bytes> Packet<B> {
    /// Create an IPv6 packet without checking the buffer.
    pub fn unchecked(buffer: B) -> (packet: Packet<B>)
        ensures
            packet@ == buffer.bytes(),
    {
        Packet { buffer }
    }

    /// Parse an IPv6 packet without checking the payload.
    pub fn no_payload(buffer: B) -> (parsed: Result<Packet<B>, ErrorKind>)
        ensures
            match parsed {
                Ok(packet) => {
                    &&& header_fault(buffer.bytes()) is None
                    &&& packet@ == buffer.bytes()
                    &&& packet@.len() >= 40
                    &&& version_of(packet@) == 6
                },
                Err(kind) => header_fault(buffer.bytes()) == Some(kind),
            },
    {
        let packet = Packet::unchecked(buffer);

        if packet.buffer.as_bytes().len() < HEADER_MIN {
            return Err(ErrorKind::SmallBuffer);
        }

        if packet.buffer.as_bytes()[0] >> 4 != 6 {
            return Err(ErrorKind::InvalidPacket);
        }

        Ok(packet)
    }

    /// Parse an IPv6 packet, checking the buffer contents are correct.
    pub fn new(buffer: B) -> (parsed: Result<Packet<B>, ErrorKind>)
        ensures
            match parsed {
                Ok(packet) => {
                    &&& packet_fault(buffer.bytes()) is None
                    &&& packet@ == buffer.bytes()
                    &&& packet@.len() >= 40 + payload_length_of(packet@)
                    &&& version_of(packet@) == 6
                },
                Err(kind) => packet_fault(buffer.bytes()) == Some(kind),
            },
    {
        let packet = match Packet::no_payload(buffer) {
            Ok(packet) => packet,
            Err(kind) => {
                return Err(kind);
            },
        };

        if packet.buffer.as_bytes().len() < packet.length() {
            return Err(ErrorKind::SmallBuffer);
        }

        Ok(packet)
    }

    /// Convert the packet to its owned version.
    pub fn to_owned(&self) -> (owned: Packet<Vec<u8>>)
        ensures
            owned@ == self@,
    {
        Packet::unchecked(slice_to_vec(self.buffer.as_bytes()))
    }

    /// The bytes of the packet: the header and the payload that it declares.
    pub fn as_ref(&self) -> (bytes: &[u8])
        requires
            self@.len() >= 40 + payload_length_of(self@),
        ensures
            bytes@ == self@.subrange(0, 40 + payload_length_of(self@)),
    {
        slice_subrange(self.buffer.as_bytes(), 0, self.length())
    }

    /// The header and the payload. The payload ends where the header says, or
    /// at the end of the buffer if that comes first.
    pub fn split(&self) -> (parts: (&[u8], &[u8]))
        requires
            self@.len() >= 40,
        ensures
            parts.0@ == self@.subrange(0, 40),
            parts.1@ == payload_of(self@),
    {
        let header: usize = self.header_length();
        let payload: usize = self.payload_length() as usize;

        let buffer = self.buffer.as_bytes();
        let buffer = if buffer.len() < header + payload {
            buffer
        } else {
            slice_subrange(buffer, 0, header + payload)
        };

        buffer.split_at(header)
    }

    /// The header of the packet.
    pub fn header(&self) -> (bytes: &[u8])
        requires
            self@.len() >= 40,
        ensures
            bytes@ == self@.subrange(0, 40),
    {
        self.split().0
    }

    /// The payload of the packet.
    pub fn payload(&self) -> (bytes: &[u8])
        requires
            self@.len() >= 40,
        ensures
            bytes@ == payload_of(self@),
    {
        self.split().1
    }

    /// Total length of the packet in octets.
    pub fn length(&self) -> (octets: usize)
        requires
            self@.len() >= 6,
        ensures
            octets == 40 + payload_length_of(self@),
    {
        self.header_length() + self.payload_length() as usize
    }

    /// Total length of the header in octets, will always be 40.
    pub fn header_length(&self) -> (octets: usize)
        ensures
            octets == 40,
    {
        40
    }

    /// IP protocol version, will always be 6.
    pub fn version(&self) -> (version: u8)
        requires
            self@.len() >= 1,
        ensures
            version == version_of(self@),
    {
        self.buffer.as_bytes()[0] >> 4
    }

    /// Total length of the payload in octets.
    pub fn payload_length(&self) -> (octets: u16)
        requires
            self@.len() >= 6,
        ensures
            octets == payload_length_of(self@),
    {
        load_u16(self.buffer.as_bytes(), 4)
    }

    /// Hop Limit
    pub fn hop_limit(&self) -> (hops: u8)
        requires
            self@.len() >= 8,
        ensures
            hops == hop_limit_of(self@),
    {
        self.buffer.as_bytes()[7]
    }

    /// Source address.
    pub fn source(&self) -> (address: Address)
        requires
            self@.len() >= 24,
        ensures
            address@ == source_of(self@),
    {
        let data = self.buffer.as_bytes();
        let address = Address::new(
            load_u16(data, 8),
            load_u16(data, 10),
            load_u16(data, 12),
            load_u16(data, 14),
            load_u16(data, 16),
            load_u16(data, 18),
            load_u16(data, 20),
            load_u16(data, 22),
        );
        proof {
            lemma_octets_of_groups(self@, 8);
            assert(groups_at(self@, 8) =~= seq![
                be16_at(self@, 8),
                be16_at(self@, 10),
                be16_at(self@, 12),
                be16_at(self@, 14),
                be16_at(self@, 16),
                be16_at(self@, 18),
                be16_at(self@, 20),
                be16_at(self@, 22),
            ]);
        }
        address
    }

    /// Destination address.
    pub fn destination(&self) -> (address: Address)
        requires
            self@.len() >= 40,
        ensures
            address@ == destination_of(self@),
    {
        let data = self.buffer.as_bytes();
        let address = Address::new(
            load_u16(data, 24),
            load_u16(data, 26),
            load_u16(data, 28),
            load_u16(data, 30),
            load_u16(data, 32),
            load_u16(data, 34),
            load_u16(data, 36),
            load_u16(data, 38),
        );
        proof {
            lemma_octets_of_groups(self@, 24);
            assert(groups_at(self@, 24) =~= seq![
                be16_at(self@, 24),
                be16_at(self@, 26),
                be16_at(self@, 28),
                be16_at(self@, 30),
                be16_at(self@, 32),
                be16_at(self@, 34),
                be16_at(self@, 36),
                be16_at(self@, 38),
            ]);
        }
        address
    }

    /// Inner protocol.
    pub fn next_header(&self) -> (protocol: Protocol)
        requires
            self@.len() >= 7,
        ensures
            protocol == next_header_of(self@),
    {
        self.buffer.as_bytes()[6].into()
    }
}

impl<B: BytesMut> Packet<B> {
    /// The bytes of the packet, for writing: the header and the payload that
    /// it declares.
    pub fn as_mut(&mut self) -> (bytes: &mut [u8])
        requires
            old(self)@.len() >= 40 + payload_length_of(old(self)@),
        ensures
            bytes@ == old(self)@.subrange(0, 40 + payload_length_of(old(self)@)),
            final(self)@ == final(bytes)@ + old(self)@.subrange(
                40 + payload_length_of(old(self)@),
                old(self)@.len() as int,
            ),
    {
        let size: usize = self.length();
        self.buffer.as_bytes_mut().split_at_mut(size).0
    }

    /// The header and the payload, for writing. The payload ends where the
    /// header says, or at the end of the buffer if that comes first.
    pub fn split_mut(&mut self) -> (parts: (&mut [u8], &mut [u8]))
        requires
            old(self)@.len() >= 40,
        ensures
            parts.0@ == old(self)@.subrange(0, 40),
            parts.1@ == payload_of(old(self)@),
            final(self)@ == final(parts.0)@ + final(parts.1)@ + old(self)@.subrange(
                payload_end(old(self)@),
                old(self)@.len() as int,
            ),
    {
        let header: usize = self.header_length();
        let payload: usize = self.payload_length() as usize;

        let buffer = self.buffer.as_bytes_mut();
        let buffer = if buffer.len() < header + payload {
            buffer
        } else {
            buffer.split_at_mut(header + payload).0
        };

        buffer.split_at_mut(header)
    }

    /// The header of the packet, for writing.
    pub fn header_mut(&mut self) -> (bytes: &mut [u8])
        requires
            old(self)@.len() >= 40,
        ensures
            bytes@ == old(self)@.subrange(0, 40),
            final(self)@ == final(bytes)@ + old(self)@.subrange(40, old(self)@.len() as int),
    {
        self.split_mut().0
    }

    /// The payload of the packet, for writing.
    pub fn payload_mut(&mut self) -> (bytes: &mut [u8])
        requires
            old(self)@.len() >= 40,
        ensures
            bytes@ == payload_of(old(self)@),
            final(self)@ == old(self)@.subrange(0, 40) + final(bytes)@ + old(self)@.subrange(
                payload_end(old(self)@),
                old(self)@.len() as int,
            ),
    {
        self.split_mut().1
    }

    /// Hop Limit
    pub fn set_hop_limit(&mut self, value: u8) -> (changed: Result<&mut Self, ErrorKind>)
        requires
            old(self)@.len() >= 8,
        ensures
            changed matches Ok(packet) && packet@ == with_hop_limit(old(self)@, value)
                && *final(self) == *final(packet),
    {
        let data = self.buffer.as_bytes_mut();
        data[7] = value;
        Ok(self)
    }

    /// Source address.
    pub fn set_source(&mut self, value: Address) -> (changed: Result<&mut Self, ErrorKind>)
        requires
            old(self)@.len() >= 40,
        ensures
            changed matches Ok(packet) && packet@ == with_source(old(self)@, value)
                && *final(self) == *final(packet),
    {
        let octets = value.octets();
        store_bytes(self.header_mut(), 8, octets.as_slice());
        assert(self@ =~= old(self)@.subrange(0, 8) + value@ + old(self)@.subrange(
            24,
            old(self)@.len() as int,
        ));
        Ok(self)
    }

    /// Destination address.
    pub fn set_destination(&mut self, value: Address) -> (changed: Result<&mut Self, ErrorKind>)
        requires
            old(self)@.len() >= 40,
        ensures
            changed matches Ok(packet) && packet@ == with_destination(old(self)@, value)
                && *final(self) == *final(packet),
    {
        let octets = value.octets();
        store_bytes(self.header_mut(), 24, octets.as_slice());
        assert(self@ =~= old(self)@.subrange(0, 24) + value@ + old(self)@.subrange(
            40,
            old(self)@.len() as int,
        ));
        Ok(self)
    }

    /// Inner protocol.
    pub fn set_next_header(&mut self, value: Protocol) -> (changed: Result<&mut Self, ErrorKind>)
        requires
            old(self)@.len() >= 7,
        ensures
            changed matches Ok(packet) && packet@ == with_next_header(old(self)@, value)
                && *final(self) == *final(packet),
    {
        let data = self.buffer.as_bytes_mut();
        data[6] = value.into();
        Ok(self)
    }
}

} // verus!
