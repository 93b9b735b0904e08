//! Building UDP datagrams.

use crate::buffer::{self, zeros, Buffer};
use crate::builder::{
    finalized, lemma_finalized_below, lemma_finalized_joined, lemma_sealed_layers, Finalization,
    Patch,
};
use crate::endian::{be16_at, lemma_be16_of_parts, store_u16, with_be16};
use crate::error::ErrorKind;
use crate::ip::v6::packet::{header_fault, packet_fault, payload_length_of, version_of};
use crate::ip::v6::Packet;
use crate::packet::store_bytes;
use crate::udp::checksum::{
    accumulate, carry, complement, finish, folded, lemma_folded_part, word_sum,
};
use vstd::prelude::*;
use vstd::slice::slice_subrange;

verus! {

/// Size of the header, in octets.
pub const HEADER: usize = 8;

/// The number that stands for UDP in the header of the IP packet around it.
pub const PROTOCOL: u16 = 17;

/// Why the datagram at `offset`, carried by the IP header at `ip`, cannot be
/// sealed, if it cannot: the buffer ends before the end of the UDP header, or
/// the bytes from `ip` up to `offset` are not the header of an IPv6 packet.
pub open spec fn seal_fault(bytes: Seq<u8>, ip: nat, offset: nat) -> Option<ErrorKind> {
    if offset + 8 > bytes.len() {
        Some(ErrorKind::SmallBuffer)
    } else if ip > offset || header_fault(bytes.subrange(ip as int, offset as int)) is Some {
        Some(ErrorKind::InvalidPacket)
    } else {
        None
    }
}

/// The length of the datagram that starts at `offset` and runs to the end of
/// the buffer, reduced to 16 bits.
pub open spec fn datagram_length(bytes: Seq<u8>, offset: int) -> u16 {
    ((bytes.len() - offset) % 0x10000) as u16
}

/// The sum of the words that the checksum of the datagram at `offset` covers:
/// the source and destination address of the IP header at `ip`, the length of
/// the datagram, the protocol number, and the datagram itself with zero in
/// place of its checksum.
pub open spec fn datagram_sum(bytes: Seq<u8>, ip: int, offset: int) -> nat {
    word_sum(bytes.subrange(ip + 8, ip + 24)) + word_sum(bytes.subrange(ip + 24, ip + 40))
        + datagram_length(bytes, offset) as nat + PROTOCOL as nat + word_sum(
        with_be16(bytes.subrange(offset, bytes.len() as int), 6, 0),
    )
}

/// The bytes after sealing the datagram at `offset`: its length field holds
/// the length of the datagram, and its checksum field the checksum of the
/// datagram with that length in it.
pub open spec fn sealed(bytes: Seq<u8>, ip: int, offset: int) -> Seq<u8>
    recommends
        seal_fault(bytes, ip as nat, offset as nat) is None,
{
    let sized = with_be16(bytes, offset + 4, datagram_length(bytes, offset));
    with_be16(sized, offset + 6, complement(datagram_sum(sized, ip, offset)))
}

/// Whether the datagram at `offset`, carried by the IP header at `ip`, is
/// sealed: its length field holds its length, and its checksum field the
/// checksum that goes with the bytes as they are.
pub open spec fn is_sealed(bytes: Seq<u8>, ip: int, offset: int) -> bool {
    &&& 0 <= ip
    &&& ip + 40 <= offset
    &&& offset + 8 <= bytes.len()
    &&& be16_at(bytes, offset + 4) == datagram_length(bytes, offset)
    &&& be16_at(bytes, offset + 6) == complement(datagram_sum(bytes, ip, offset))
}

/// The sum that the checksum covers looks at the two addresses of the IP
/// header and at the datagram, and at nothing else.
pub proof fn lemma_datagram_sum_frame(first: Seq<u8>, second: Seq<u8>, ip: int, offset: int)
    requires
        0 <= ip,
        ip + 40 <= offset <= first.len(),
        first.len() == second.len(),
        forall|at: int| ip + 8 <= at < ip + 40 ==> first[at] == second[at],
        forall|at: int| offset <= at < first.len() ==> first[at] == second[at],
    ensures
        datagram_sum(first, ip, offset) == datagram_sum(second, ip, offset),
{
    assert(first.subrange(ip + 8, ip + 24) =~= second.subrange(ip + 8, ip + 24));
    assert(first.subrange(ip + 24, ip + 40) =~= second.subrange(ip + 24, ip + 40));
    assert(first.subrange(offset, first.len() as int) =~= second.subrange(
        offset,
        second.len() as int,
    ));
}

/// The sum that the checksum covers does not look at the checksum field.
pub proof fn lemma_datagram_sum_skips_checksum(bytes: Seq<u8>, ip: int, offset: int, value: u16)
    requires
        0 <= ip,
        ip + 40 <= offset,
        offset + 8 <= bytes.len(),
    ensures
        datagram_sum(with_be16(bytes, offset + 6, value), ip, offset) == datagram_sum(
            bytes,
            ip,
            offset,
        ),
{
    let stored = with_be16(bytes, offset + 6, value);
    assert(stored.subrange(ip + 8, ip + 24) =~= bytes.subrange(ip + 8, ip + 24));
    assert(stored.subrange(ip + 24, ip + 40) =~= bytes.subrange(ip + 24, ip + 40));
    assert(with_be16(stored.subrange(offset, stored.len() as int), 6, 0) =~= with_be16(
        bytes.subrange(offset, bytes.len() as int),
        6,
        0,
    ));
}

/// Sealing a datagram leaves it sealed.
pub proof fn lemma_sealed_is_sealed(bytes: Seq<u8>, ip: nat, offset: nat)
    requires
        seal_fault(bytes, ip, offset) is None,
    ensures
        is_sealed(sealed(bytes, ip as int, offset as int), ip as int, offset as int),
{
    let sized = with_be16(bytes, offset as int + 4, datagram_length(bytes, offset as int));
    let checksum = complement(datagram_sum(sized, ip as int, offset as int));
    assert(bytes.subrange(ip as int, offset as int).len() >= 40);
    lemma_datagram_sum_skips_checksum(sized, ip as int, offset as int, checksum);
    lemma_be16_of_parts(checksum);
    lemma_be16_of_parts(datagram_length(bytes, offset as int));
}

/// Seals the datagram at `offset` in the finished bytes of a packet. Fails,
/// and writes nothing, where `seal_fault` names a fault.
pub fn seal(out: &mut [u8], ip: usize, offset: usize) -> (done: Result<(), ErrorKind>)
    ensures
        final(out)@.len() == old(out)@.len(),
        match done {
            Ok(_) => {
                &&& seal_fault(old(out)@, ip as nat, offset as nat) is None
                &&& final(out)@ == sealed(old(out)@, ip as int, offset as int)
            },
            Err(kind) => {
                &&& seal_fault(old(out)@, ip as nat, offset as nat) == Some(kind)
                &&& final(out)@ == old(out)@
            },
        },
{
    let total: usize = out.len();
    if total < HEADER || offset > total - HEADER {
        return Err(ErrorKind::SmallBuffer);
    }
    if ip > offset {
        return Err(ErrorKind::InvalidPacket);
    }
    // Sum the parts of the IP header that the checksum covers.
    let addresses: u32 = match Packet::no_payload(slice_subrange(out, ip, offset)) {
        Ok(packet) => {
            let source = packet.source().octets();
            let destination = packet.destination().octets();
            accumulate(accumulate(0, source.as_slice()), destination.as_slice())
        },
        Err(_) => {
            return Err(ErrorKind::InvalidPacket);
        },
    };
    let ghost source_sum = word_sum(old(out)@.subrange(ip + 8, ip + 24));
    let ghost destination_sum = word_sum(old(out)@.subrange(ip + 24, ip + 40));
    proof {
        let header = old(out)@.subrange(ip as int, offset as int);
        assert(header.subrange(8, 24) =~= old(out)@.subrange(ip + 8, ip + 24));
        assert(header.subrange(24, 40) =~= old(out)@.subrange(ip + 24, ip + 40));
        lemma_folded_part(source_sum, destination_sum);
    }

    // Set the length.
    let length: u16 = ((total - offset) % 0x10000) as u16;
    store_u16(out, offset + 4, length);
    let ghost sized = out@;

    // Calculate the checksum, over zero in its own place.
    store_u16(out, offset + 6, 0);
    let fixed: u32 = carry(carry(addresses, length), PROTOCOL);
    let sum: u32 = accumulate(fixed, slice_subrange(out, offset, total));
    let checksum: u16 = finish(sum);
    proof {
        let datagram = with_be16(sized.subrange(offset as int, total as int), 6, 0);
        assert(out@.subrange(offset as int, total as int) =~= datagram);
        assert(sized.subrange(ip + 8, ip + 24) =~= old(out)@.subrange(ip + 8, ip + 24));
        assert(sized.subrange(ip + 24, ip + 40) =~= old(out)@.subrange(ip + 24, ip + 40));
        lemma_folded_part(source_sum + destination_sum, length as nat);
        lemma_folded_part(source_sum + destination_sum + length as nat, 17);
        lemma_folded_part(
            source_sum + destination_sum + length as nat + 17,
            word_sum(datagram),
        );
        assert(sum == folded(datagram_sum(sized, ip as int, offset as int)));
    }

    // Write the checksum.
    store_u16(out, offset + 6, checksum);
    assert(out@ =~= sealed(old(out)@, ip as int, offset as int));
    Ok(())
}

/// What a builder holds, as plain values.
pub struct Draft {
    /// Every byte written so far, from the first layer on.
    pub bytes: Seq<u8>,
    /// Where the IP header around the datagram starts.
    pub ip: nat,
    /// Where the UDP header starts.
    pub start: nat,
    /// The most bytes that the buffer can hold.
    pub limit: nat,
    /// The patches registered so far.
    pub patches: Seq<Patch>,
    /// Whether a payload was attached.
    pub payload: bool,
}

impl Draft {
    /// Whether the draft holds a whole header, after the start of the IP
    /// header, inside a buffer that has room for the bytes written.
    pub open spec fn wf(self) -> bool {
        self.ip <= self.start && self.start + 8 <= self.bytes.len() <= self.limit <= usize::MAX
    }

    /// The draft of a builder that has just written its header after `bytes`,
    /// the last layer in which starts at `ip`: eight zero bytes.
    pub open spec fn begin(bytes: Seq<u8>, ip: nat, limit: nat) -> Draft {
        Draft {
            bytes: bytes + zeros(8),
            ip,
            start: bytes.len(),
            limit,
            patches: Seq::empty(),
            payload: false,
        }
    }

    /// The draft after setting the source port.
    pub open spec fn source(self, value: u16) -> Draft {
        Draft { bytes: with_be16(self.bytes, self.start as int, value), ..self }
    }

    /// The draft after setting the destination port.
    pub open spec fn destination(self, value: u16) -> Draft {
        Draft { bytes: with_be16(self.bytes, self.start as int + 2, value), ..self }
    }

    /// The draft after attaching `value` as the payload.
    pub open spec fn payload(self, value: Seq<u8>) -> Draft {
        Draft { bytes: self.bytes + value, payload: true, ..self }
    }

    /// The draft with `patches` registered after its own.
    pub open spec fn extend(self, patches: Seq<Patch>) -> Draft {
        Draft { patches: self.patches + patches, ..self }
    }

    /// The patch that seals this datagram.
    pub open spec fn patch(self) -> Patch {
        Patch::Udp { ip: self.ip as usize, offset: self.start as usize }
    }

    /// The draft after registering the patch that seals this datagram.
    pub open spec fn prepare(self) -> Draft {
        Draft { patches: self.patches.push(self.patch()), ..self }
    }

    /// The finished bytes: what the patches, with this datagram's own as the
    /// last, make of the bytes written; or the failure of the first patch
    /// that cannot be applied.
    pub open spec fn build(self) -> Result<Seq<u8>, ErrorKind> {
        finalized(self.prepare().patches, self.bytes)
    }
}

/// What `build` gives for a builder made by the builder of the IPv6 header
/// before the datagram, whose earlier patches all write before that header,
/// and succeed: the packet that starts at the header passes the parser's
/// checks, its header declares the length of the datagram, and the datagram
/// is sealed. No byte changes from the header on but those that the two
/// patches fill in.
pub proof fn lemma_build(draft: Draft)
    requires
        draft.wf(),
        draft.ip + 40 == draft.start,
        draft.patches.len() > 0,
        draft.patches.last() == (Patch::Ipv6 {
            offset: draft.ip as usize,
            length: draft.start as usize,
        }),
        finalized(draft.patches.drop_last(), draft.bytes) is Ok,
        forall|j: int|
            0 <= j < draft.patches.len() - 1 ==> (#[trigger] draft.patches[j]).below(draft.ip),
    ensures
        draft.build() is Ok,
        ({
            let out = draft.build()->Ok_0;
            let packet = out.skip(draft.ip as int);
            &&& out.len() == draft.bytes.len()
            &&& packet_fault(packet) is None
            &&& version_of(packet) == 6
            &&& payload_length_of(packet) == datagram_length(out, draft.start as int)
            &&& is_sealed(out, draft.ip as int, draft.start as int)
            &&& forall|at: int|
                draft.ip <= at < out.len() && !draft.patches.last().touches(at)
                    && !draft.patch().touches(at) ==> #[trigger] out[at] == draft.bytes[at]
        }),
{
    let ip = draft.ip as int;
    let earlier = draft.patches.drop_last();
    let header = draft.patches.last();
    let datagram = draft.patch();
    let middle = finalized(earlier, draft.bytes)->Ok_0;
    assert(draft.prepare().patches =~= earlier + seq![header, datagram]);
    assert forall|j: int| 0 <= j < earlier.len() implies (#[trigger] earlier[j]).below(
        draft.ip,
    ) by {
        assert(earlier[j] == draft.patches[j]);
    }
    lemma_finalized_below(earlier, draft.bytes, draft.ip);
    lemma_finalized_joined(earlier, seq![header, datagram], draft.bytes);
    lemma_sealed_layers(middle, draft.ip as usize);
    let out = draft.build()->Ok_0;
    let packet = out.skip(ip);
    assert(packet[0] == out[ip]);
    assert(packet[4] == out[ip + 4] && packet[5] == out[ip + 5]);
}

/// UDP packet builder.
pub struct Builder<B: Buffer = buffer::Dynamic> {
    buffer: B,
    finalizer: Finalization,
    ip: usize,
    payload: bool,
}

impl<B: Buffer> View for Builder<B> {
    type V = Draft;

    closed spec fn view(&self) -> Draft {
        Draft {
            bytes: self.buffer.bytes(),
            ip: self.ip as nat,
            start: self.buffer.start(),
            limit: self.buffer.limit(),
            patches: self.finalizer@,
            payload: self.payload,
        }
    }
}

impl<B: Buffer> Builder<B> {
    /// Whether the buffer inside the builder is in a consistent state.
    pub closed spec fn sound(&self) -> bool {
        self.buffer.wf()
    }

    /// Whether the builder is in a consistent state: every builder that
    /// `with` returns is, and every method keeps it so.
    pub open spec fn wf(&self) -> bool {
        self.sound() && self@.wf()
    }

    /// Starts a datagram after what `buffer` holds, carried by the last layer
    /// in it: reserves the header. Fails if the buffer cannot hold a header.
    pub fn with(buffer: B) -> (made: Result<Self, ErrorKind>)
        requires
            buffer.wf(),
        ensures
            match made {
                Ok(builder) => {
                    &&& buffer.bytes().len() + 8 <= buffer.limit()
                    &&& builder.wf()
                    &&& builder@ == Draft::begin(buffer.bytes(), buffer.start(), buffer.limit())
                },
                Err(kind) => {
                    &&& kind == ErrorKind::SmallBuffer
                    &&& buffer.bytes().len() + 8 > buffer.limit()
                },
            },
    {
        let mut buffer = buffer;
        let ip: usize = buffer.offset();
        proof {
            buffer.lemma_bounds();
        }
        buffer.next(HEADER)?;
        proof {
            buffer.lemma_bounds();
        }
        Ok(Builder { buffer, finalizer: Default::default(), ip, payload: false })
    }

    /// The patches registered so far, for adding to them.
    pub fn finalizer(&mut self) -> (finalizer: &mut Finalization)
        ensures
            finalizer@ == old(self)@.patches,
            final(self)@ == (Draft { patches: final(finalizer)@, ..old(self)@ }),
            final(self).sound() == old(self).sound(),
    {
        &mut self.finalizer
    }

    /// Finishes the packet: registers the patch that seals this datagram, and
    /// applies every patch to the bytes written. Gives the finished bytes, or
    /// the failure of the first patch that cannot be applied.
    pub fn build(self) -> (built: Result<Vec<u8>, ErrorKind>)
        requires
            self.wf(),
        ensures
            match built {
                Ok(bytes) => self@.build() == Ok::<Seq<u8>, ErrorKind>(bytes@),
                Err(kind) => self@.build() == Err::<Seq<u8>, ErrorKind>(kind),
            },
    {
        let mut this = self;
        this.prepare();

        let mut buffer = this.buffer.into_inner();
        this.finalizer.finalize(buffer.as_mut_slice())?;
        Ok(buffer)
    }

    /// Source port.
    pub fn source(self, value: u16) -> (set: Result<Self, ErrorKind>)
        requires
            self.wf(),
        ensures
            set matches Ok(builder) && builder.wf() && builder@ == self@.source(value),
    {
        let mut this = self;
        store_u16(this.buffer.data_mut(), 0, value);
        assert(this@.bytes =~= self@.source(value).bytes);
        Ok(this)
    }

    /// Destination port.
    pub fn destination(self, value: u16) -> (set: Result<Self, ErrorKind>)
        requires
            self.wf(),
        ensures
            set matches Ok(builder) && builder.wf() && builder@ == self@.destination(value),
    {
        let mut this = self;
        store_u16(this.buffer.data_mut(), 2, value);
        assert(this@.bytes =~= self@.destination(value).bytes);
        Ok(this)
    }

    /// Payload for the packet. A builder takes a payload once.
    pub fn payload(self, value: &[u8]) -> (set: Result<Self, ErrorKind>)
        requires
            self.wf(),
        ensures
            match set {
                Ok(builder) => {
                    &&& !self@.payload
                    &&& self@.bytes.len() + value@.len() <= self@.limit
                    &&& builder.wf()
                    &&& builder@ == self@.payload(value@)
                },
                Err(kind) => if self@.payload {
                    kind == ErrorKind::AlreadyDefined
                } else {
                    kind == ErrorKind::SmallBuffer && self@.bytes.len() + value@.len()
                        > self@.limit
                },
            },
    {
        let mut this = self;
        if this.payload {
            return Err(ErrorKind::AlreadyDefined);
        }
        this.payload = true;

        let filled: usize = this.buffer.length() - this.buffer.offset();
        this.buffer.more(value.len())?;
        store_bytes(this.buffer.data_mut(), filled, value);
        assert(this@.bytes =~= self@.bytes + value@);
        Ok(this)
    }

    fn prepare(&mut self)
        requires
            old(self).wf(),
        ensures
            final(self).wf(),
            final(self)@ == old(self)@.prepare(),
    {
        let ip: usize = self.ip;
        let offset: usize = self.buffer.offset();

        self.finalizer.add(Patch::Udp { ip, offset });
    }
}

} // verus!
