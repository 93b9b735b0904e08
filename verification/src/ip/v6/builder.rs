//! Building IPv6 packets.

use crate::buffer::{self, zeros, Buffer};
use crate::builder::{
    finalized, lemma_finalized_below, lemma_finalized_joined, lemma_finalized_length,
    Finalization, Patch,
};
use crate::endian::{be16_at, lemma_be16_of_parts, store_u16, with_be16};
use crate::error::ErrorKind;
use crate::ip::v6::address::Address;
use crate::ip::v6::packet::{
    destination_of, hop_limit_of, next_header_of, packet_fault, payload_length_of, payload_of,
    source_of, version_of, with_destination, with_hop_limit, with_next_header, with_source,
    HEADER_MIN,
};
use crate::ip::Protocol;
use crate::packet::store_bytes;
use crate::udp;
use vstd::prelude::*;

verus! {

/// Whether a buffer of `total` bytes has room for the fields that sealing
/// writes into the header at `offset`, and already held `length` bytes when
/// the header was committed.
pub open spec fn seal_fits(total: nat, offset: nat, length: nat) -> bool {
    offset + 6 <= total && length <= total
}

/// The bytes after sealing the header at `offset`: the high half of its first
/// octet is version 6, whatever was there, and the low half is kept; and its
/// payload length is the number of bytes that the buffer has gained since it
/// held `length` bytes, reduced to 16 bits.
pub open spec fn sealed(bytes: Seq<u8>, offset: int, length: int) -> Seq<u8>
    recommends
        seal_fits(bytes.len(), offset as nat, length as nat),
{
    with_be16(
        bytes.update(offset, (bytes[offset] & 0x0f) | 0x60),
        offset + 4,
        ((bytes.len() - length) % 0x10000) as u16,
    )
}

/// Whether the header at `offset`, committed when the buffer held `length`
/// bytes, is sealed: its first octet names version 6, and its payload length
/// is the number of bytes that the buffer holds beyond `length`, reduced to
/// 16 bits.
pub open spec fn is_sealed(bytes: Seq<u8>, offset: int, length: int) -> bool {
    &&& 0 <= offset
    &&& offset + 6 <= bytes.len()
    &&& 0 <= length <= bytes.len()
    &&& bytes[offset] >> 4 == 6
    &&& be16_at(bytes, offset + 4) == ((bytes.len() - length) % 0x10000) as u16
}

/// Sealing a header leaves it sealed.
pub proof fn lemma_sealed_is_sealed(bytes: Seq<u8>, offset: nat, length: nat)
    requires
        seal_fits(bytes.len(), offset, length),
    ensures
        is_sealed(sealed(bytes, offset as int, length as int), offset as int, length as int),
{
    let first = bytes[offset as int];
    assert(((first & 0x0f) | 0x60) >> 4 == 6) by (bit_vector);
    lemma_be16_of_parts(((bytes.len() - length) % 0x10000) as u16);
}

/// Seals the header at `offset` in the finished bytes of a packet. Fails, and
/// writes nothing, where `seal_fits` does not hold.
pub fn seal(out: &mut [u8], offset: usize, length: usize) -> (done: Result<(), ErrorKind>)
    ensures
        final(out)@.len() == old(out)@.len(),
        match done {
            Ok(_) => {
                &&& seal_fits(old(out)@.len(), offset as nat, length as nat)
                &&& final(out)@ == sealed(old(out)@, offset as int, length as int)
            },
            Err(kind) => {
                &&& kind == ErrorKind::SmallBuffer
                &&& !seal_fits(old(out)@.len(), offset as nat, length as nat)
                &&& final(out)@ == old(out)@
            },
        },
{
    let total: usize = out.len();
    if total < 6 || offset > total - 6 || length > total {
        return Err(ErrorKind::SmallBuffer);
    }
    // Set the version to 6
    out[offset] = (out[offset] & 0x0f) | 0x60;

    // Calculate and write the payload length
    let count: usize = total - length;
    store_u16(out, offset + 4, (count % 0x10000) as u16);

    Ok(())
}

/// What a builder holds, as plain values.
pub struct Draft {
    /// Every byte written so far, from the first layer on.
    pub bytes: Seq<u8>,
    /// Where the IPv6 header starts.
    pub start: nat,
    /// The most bytes that the buffer can hold.
    pub limit: nat,
    /// The patches registered so far.
    pub patches: Seq<Patch>,
    /// Whether a payload was attached.
    pub payload: bool,
}

impl Draft {
    /// Whether the draft holds a whole header, marked as version 6, inside a
    /// buffer that has room for the bytes written, and nothing after the
    /// header unless a payload was attached.
    pub open spec fn wf(self) -> bool {
        &&& self.start + 40 <= self.bytes.len() <= self.limit <= usize::MAX
        &&& self.bytes[self.start as int] >> 4 == 6
        &&& !self.payload ==> self.bytes.len() == self.start + 40
    }

    /// The bytes of this layer: the header and what follows it.
    pub open spec fn layer(self) -> Seq<u8> {
        self.bytes.subrange(self.start as int, self.bytes.len() as int)
    }

    /// The draft with the bytes of this layer replaced.
    pub open spec fn with_layer(self, layer: Seq<u8>) -> Draft {
        Draft { bytes: self.bytes.subrange(0, self.start as int) + layer, ..self }
    }

    /// The draft of a builder that has just written its header after `bytes`:
    /// forty bytes, all zero but for the version.
    pub open spec fn begin(bytes: Seq<u8>, limit: nat) -> Draft {
        Draft {
            bytes: bytes + zeros(40).update(0, 0x60),
            start: bytes.len(),
            limit,
            patches: Seq::empty(),
            payload: false,
        }
    }

    /// The draft after setting the hop limit.
    pub open spec fn hop_limit(self, value: u8) -> Draft {
        self.with_layer(with_hop_limit(self.layer(), value))
    }

    /// The draft after setting the source address.
    pub open spec fn source(self, value: Address) -> Draft {
        self.with_layer(with_source(self.layer(), value))
    }

    /// The draft after setting the destination address.
    pub open spec fn destination(self, value: Address) -> Draft {
        self.with_layer(with_destination(self.layer(), value))
    }

    /// The draft after setting the inner protocol.
    pub open spec fn next_header(self, value: Protocol) -> Draft {
        self.with_layer(with_next_header(self.layer(), value))
    }

    /// The draft after attaching `value` as the payload.
    pub open spec fn payload(self, value: Seq<u8>) -> Draft {
        Draft { bytes: self.bytes + value, payload: true, ..self }
    }

    /// The patch that seals this header, as it is registered now: with the
    /// start of the header and the number of bytes written so far.
    pub open spec fn patch(self) -> Patch {
        Patch::Ipv6 { offset: self.start as usize, length: self.bytes.len() as usize }
    }

    /// The draft after registering the patch that seals this header.
    pub open spec fn prepare(self) -> Draft {
        Draft { patches: self.patches.push(self.patch()), ..self }
    }

    /// The draft of the UDP builder that takes over: this header names UDP as
    /// its inner protocol and has its patch registered, and the datagram's
    /// header follows the bytes written so far.
    pub open spec fn udp(self) -> udp::builder::Draft {
        let outer = self.next_header(Protocol::Udp).prepare();
        udp::builder::Draft::begin(outer.bytes, outer.start, outer.limit).extend(outer.patches)
    }

    /// The finished bytes: what the patches, with this header's own as the
    /// last, make of the bytes written; or the failure of the first patch
    /// that cannot be applied.
    pub open spec fn build(self) -> Result<Seq<u8>, ErrorKind> {
        finalized(self.prepare().patches, self.bytes)
    }
}

/// Whatever patches were registered before, a build that succeeds gives a
/// packet of version 6 that passes the parser's checks: the header's own patch
/// runs last. The header declares an empty payload: its length field counts
/// the bytes written after the header was committed, and `build` commits it
/// last.
pub proof fn lemma_build_sealed(draft: Draft)
    requires
        draft.wf(),
        draft.build() is Ok,
    ensures
        finalized(draft.patches, draft.bytes) is Ok,
        draft.build()->Ok_0 == sealed(
            finalized(draft.patches, draft.bytes)->Ok_0,
            draft.start as int,
            draft.bytes.len() as int,
        ),
        ({
            let out = draft.build()->Ok_0;
            let packet = out.skip(draft.start as int);
            &&& out.len() == draft.bytes.len()
            &&& is_sealed(out, draft.start as int, draft.bytes.len() as int)
            &&& packet_fault(packet) is None
            &&& version_of(packet) == 6
            &&& payload_length_of(packet) == 0
            &&& payload_of(packet) == Seq::<u8>::empty()
        }),
{
    let start = draft.start as int;
    let total = draft.bytes.len() as int;
    lemma_finalized_joined(draft.patches, seq![draft.patch()], draft.bytes);
    assert(draft.prepare().patches =~= draft.patches + seq![draft.patch()]);
    let middle = finalized(draft.patches, draft.bytes)->Ok_0;
    lemma_finalized_length(draft.patches, draft.bytes);
    assert(seq![draft.patch()].skip(1) =~= Seq::<Patch>::empty());
    reveal_with_fuel(finalized, 2);
    let out = sealed(middle, start, total);
    assert(draft.build() == Ok::<Seq<u8>, ErrorKind>(out));
    lemma_sealed_is_sealed(middle, draft.start, draft.bytes.len());
    let packet = out.skip(start);
    assert(packet[0] == out[start]);
    assert(packet[4] == 0 && packet[5] == 0);
    assert(payload_of(packet) =~= Seq::<u8>::empty());
}

/// What `build` gives for a builder whose registered patches all write before
/// its header, and succeed: the build succeeds, and the packet holds the
/// fields and the bytes after the header as they were set.
pub proof fn lemma_build(draft: Draft)
    requires
        draft.wf(),
        finalized(draft.patches, draft.bytes) is Ok,
        forall|j: int|
            0 <= j < draft.patches.len() ==> (#[trigger] draft.patches[j]).below(draft.start),
    ensures
        draft.build() is Ok,
        ({
            let out = draft.build()->Ok_0;
            let packet = out.skip(draft.start as int);
            &&& out.len() == draft.bytes.len()
            &&& packet_fault(packet) is None
            &&& version_of(packet) == 6
            &&& payload_length_of(packet) == 0
            &&& payload_of(packet) == Seq::<u8>::empty()
            &&& next_header_of(packet) == next_header_of(draft.layer())
            &&& hop_limit_of(packet) == hop_limit_of(draft.layer())
            &&& source_of(packet) == source_of(draft.layer())
            &&& destination_of(packet) == destination_of(draft.layer())
            &&& packet.skip(40) == draft.layer().skip(40)
        }),
{
    let start = draft.start as int;
    let total = draft.bytes.len() as int;
    let middle = finalized(draft.patches, draft.bytes)->Ok_0;
    lemma_finalized_below(draft.patches, draft.bytes, draft.start);
    lemma_finalized_joined(draft.patches, seq![draft.patch()], draft.bytes);
    assert(draft.prepare().patches =~= draft.patches + seq![draft.patch()]);
    assert(seq![draft.patch()].skip(1) =~= Seq::<Patch>::empty());
    reveal_with_fuel(finalized, 2);
    let out = sealed(middle, start, total);
    assert(draft.build() == Ok::<Seq<u8>, ErrorKind>(out));
    lemma_build_sealed(draft);
    let packet = out.skip(start);
    assert(source_of(packet) =~= source_of(draft.layer()));
    assert(destination_of(packet) =~= destination_of(draft.layer()));
    assert(packet.skip(40) =~= draft.layer().skip(40));
}

/// A packet built from a hop limit, two addresses, an inner protocol and a
/// payload parses, and the parser finds the hop limit, the addresses and the
/// protocol that were set, with the payload's bytes after the header. The
/// header declares an empty payload, so that the payload that the parser
/// finds is the one set where that is empty.
pub proof fn lemma_round_trip(
    limit: nat,
    hops: u8,
    source: Address,
    destination: Address,
    protocol: Protocol,
    payload: Seq<u8>,
)
    requires
        40 + payload.len() <= limit <= usize::MAX,
        protocol.canonical(),
    ensures
        ({
            let draft = Draft::begin(Seq::empty(), limit).hop_limit(hops).source(
                source,
            ).destination(destination).next_header(protocol).payload(payload);
            &&& draft.wf()
            &&& draft.build() is Ok
            &&& ({
                let out = draft.build()->Ok_0;
                &&& out.len() == 40 + payload.len()
                &&& packet_fault(out) is None
                &&& version_of(out) == 6
                &&& hop_limit_of(out) == hops
                &&& source_of(out) == source@
                &&& destination_of(out) == destination@
                &&& next_header_of(out) == protocol
                &&& out.skip(40) == payload
                &&& payload_length_of(out) == 0
                &&& payload.len() == 0 ==> payload_of(out) == payload
            })
        }),
{
    let header = Draft::begin(Seq::empty(), limit).hop_limit(hops).source(source).destination(
        destination,
    ).next_header(protocol);
    lemma_header(limit, hops, source, destination, protocol);
    let draft = header.payload(payload);
    assert(0x60u8 >> 4 == 6) by (bit_vector);
    lemma_build(draft);
    let out = draft.build()->Ok_0;
    assert(out.skip(0) =~= out);
    assert(draft.layer() =~= draft.bytes);
    assert(source_of(draft.bytes) =~= source_of(header.bytes));
    assert(destination_of(draft.bytes) =~= destination_of(header.bytes));
    assert(draft.bytes.skip(40) =~= payload);
}

/// A packet built from a hop limit and two addresses around a UDP datagram
/// with two ports and a payload parses; the parser finds the fields that
/// were set and UDP as the inner protocol; the header declares the length of
/// the datagram, which is the payload that the parser finds; and the
/// datagram holds the ports, its own length, a checksum that is right for
/// the finished bytes, and the payload.
pub proof fn lemma_udp_round_trip(
    limit: nat,
    hops: u8,
    source: Address,
    destination: Address,
    from: u16,
    to: u16,
    payload: Seq<u8>,
)
    requires
        48 + payload.len() <= limit <= usize::MAX,
        8 + payload.len() <= 65535,
    ensures
        ({
            let draft = Draft::begin(Seq::empty(), limit).hop_limit(hops).source(
                source,
            ).destination(destination).udp().source(from).destination(to).payload(payload);
            &&& draft.wf()
            &&& draft.build() is Ok
            &&& ({
                let out = draft.build()->Ok_0;
                &&& out.len() == 48 + payload.len()
                &&& packet_fault(out) is None
                &&& version_of(out) == 6
                &&& hop_limit_of(out) == hops
                &&& source_of(out) == source@
                &&& destination_of(out) == destination@
                &&& next_header_of(out) == Protocol::Udp
                &&& payload_length_of(out) == 8 + payload.len()
                &&& payload_of(out) == out.skip(40)
                &&& be16_at(out, 40) == from
                &&& be16_at(out, 42) == to
                &&& be16_at(out, 44) == 8 + payload.len()
                &&& udp::builder::is_sealed(out, 0, 40)
                &&& out.skip(48) == payload
            })
        }),
{
    let header = Draft::begin(Seq::empty(), limit).hop_limit(hops).source(source).destination(
        destination,
    );
    lemma_header(limit, hops, source, destination, Protocol::Udp);
    let outer = header.next_header(Protocol::Udp).prepare();
    assert(header.udp() == udp::builder::Draft::begin(outer.bytes, 0, limit).extend(
        outer.patches,
    ));
    let entered = header.udp();
    let patch = Patch::Ipv6 { offset: 0, length: 40 };
    assert(entered.patches =~= seq![patch]);
    assert(entered.bytes.len() == 48);
    assert(entered.bytes.subrange(0, 40) =~= outer.bytes);
    let draft = entered.source(from).destination(to).payload(payload);
    let bytes = draft.bytes;
    assert(draft.patches == entered.patches);
    assert(bytes.len() == 48 + payload.len());
    assert(bytes.subrange(0, 40) =~= outer.bytes);
    assert(bytes[0] == outer.bytes[0]);
    assert(0x60u8 >> 4 == 6) by (bit_vector);
    assert(draft.patches.drop_last() =~= Seq::<Patch>::empty());
    udp::builder::lemma_build(draft);
    let out = draft.build()->Ok_0;
    assert(out.skip(0) =~= out);
    lemma_be16_of_parts(from);
    lemma_be16_of_parts(to);
    assert(be16_at(bytes, 40) == from);
    assert(be16_at(bytes, 42) == to);
    assert(bytes[6] == outer.bytes[6]);
    assert(bytes[7] == outer.bytes[7]);
    assert(source_of(bytes) =~= source_of(outer.bytes));
    assert(destination_of(bytes) =~= destination_of(outer.bytes));
    assert(source_of(out) =~= source_of(bytes));
    assert(destination_of(out) =~= destination_of(bytes));
    assert(payload_of(out) =~= out.skip(40));
    assert(bytes.skip(48) =~= payload);
    assert(out.skip(48) =~= payload);
}

/// Attaching a payload marks the draft as having one and puts the payload's
/// bytes after those written before; where the layer starts and which
/// patches are registered stay as they were.
pub proof fn lemma_one_payload(draft: Draft, value: Seq<u8>)
    ensures
        draft.payload(value).payload,
        draft.payload(value).bytes == draft.bytes + value,
        draft.payload(value).start == draft.start,
        draft.payload(value).patches == draft.patches,
{
}

/// The header that a builder holds after a hop limit, two addresses and an
/// inner protocol were set on a fresh one.
proof fn lemma_header(
    limit: nat,
    hops: u8,
    source: Address,
    destination: Address,
    protocol: Protocol,
)
    requires
        40 <= limit <= usize::MAX,
    ensures
        ({
            let draft = Draft::begin(Seq::empty(), limit).hop_limit(hops).source(
                source,
            ).destination(destination).next_header(protocol);
            &&& draft.wf()
            &&& draft.start == 0
            &&& draft.limit == limit
            &&& !draft.payload
            &&& draft.patches == Seq::<Patch>::empty()
            &&& draft.bytes.len() == 40
            &&& draft.bytes[0] == 0x60
            &&& draft.bytes[6] == protocol.number()
            &&& hop_limit_of(draft.bytes) == hops
            &&& source_of(draft.bytes) == source@
            &&& destination_of(draft.bytes) == destination@
        }),
{
    let d0 = Draft::begin(Seq::empty(), limit);
    let d1 = d0.hop_limit(hops);
    let d2 = d1.source(source);
    let d3 = d2.destination(destination);
    let d4 = d3.next_header(protocol);
    assert(0x60u8 >> 4 == 6) by (bit_vector);
    assert(d1.start == 0 && d1.bytes.len() == 40);
    assert(d2.start == 0 && d2.bytes.len() == 40);
    assert(d3.start == 0 && d3.bytes.len() == 40);
    assert(d4.start == 0 && d4.bytes.len() == 40);
    assert(source_of(d4.bytes) =~= source@);
    assert(destination_of(d4.bytes) =~= destination@);
}

/// IPv6 packet builder.
pub struct Builder<B: Buffer = buffer::Dynamic> {
    buffer: B,
    finalizer: Finalization,
    payload: bool,
}

impl<B: Buffer> View for Builder<B> {
    type V = Draft;

    closed spec fn view(&self) -> Draft {
        Draft {
            bytes: self.buffer.bytes(),
            start: self.buffer.start(),
            limit: self.buffer.limit(),
            patches: self.finalizer@,
            payload: self.payload,
        }
    }
}

impl Default for Builder<buffer::Dynamic> {
    fn default() -> (builder: Self)
        ensures
            builder.wf(),
            builder@ == Draft::begin(Seq::empty(), usize::MAX as nat),
    {
        Builder::with(buffer::Dynamic::default()).unwrap()
    }
}

impl<B: Buffer> Builder<B> {
    /// Whether the buffer inside the builder is in a consistent state.
    pub closed spec fn sound(&self) -> bool {
        self.buffer.wf()
    }

    /// Whether the builder is in a consistent state: every builder that
    /// `with` returns is, and every method keeps it so.
    pub open spec fn wf(&self) -> bool {
        self.sound() && self@.wf()
    }

    /// Starts an IPv6 packet after what `buffer` holds: reserves the header
    /// and marks it as version 6. Fails if the buffer cannot hold a header.
    pub fn with(buffer: B) -> (made: Result<Self, ErrorKind>)
        requires
            buffer.wf(),
        ensures
            match made {
                Ok(builder) => {
                    &&& buffer.bytes().len() + 40 <= buffer.limit()
                    &&& builder.wf()
                    &&& builder@ == Draft::begin(buffer.bytes(), buffer.limit())
                },
                Err(kind) => {
                    &&& kind == ErrorKind::SmallBuffer
                    &&& buffer.bytes().len() + 40 > buffer.limit()
                },
            },
    {
        let ghost draft = Draft::begin(buffer.bytes(), buffer.limit());
        let mut buffer = buffer;
        buffer.next(HEADER_MIN)?;

        let data = buffer.data_mut();
        data[0] = 0x60;

        proof {
            buffer.lemma_bounds();
            assert(buffer.bytes() =~= draft.bytes);
            assert(0x60u8 >> 4 == 6) by (bit_vector);
        }
        Ok(Builder { buffer, finalizer: Default::default(), payload: false })
    }

    /// The patches registered so far, for adding to them.
    pub fn finalizer(&mut self) -> (finalizer: &mut Finalization)
        ensures
            finalizer@ == old(self)@.patches,
            final(self)@ == (Draft { patches: final(finalizer)@, ..old(self)@ }),
            final(self).sound() == old(self).sound(),
    {
        &mut self.finalizer
    }

    /// Finishes the packet: registers the patch that seals this header, and
    /// applies every patch to the bytes written. Gives the finished bytes, or
    /// the failure of the first patch that cannot be applied.
    pub fn build(self) -> (built: Result<Vec<u8>, ErrorKind>)
        requires
            self.wf(),
        ensures
            match built {
                Ok(bytes) => self@.build() == Ok::<Seq<u8>, ErrorKind>(bytes@),
                Err(kind) => self@.build() == Err::<Seq<u8>, ErrorKind>(kind),
            },
    {
        let mut this = self;
        this.prepare();

        let mut buffer = this.buffer.into_inner();
        this.finalizer.finalize(buffer.as_mut_slice())?;
        Ok(buffer)
    }

    /// Hop Limit
    pub fn hop_limit(self, value: u8) -> (set: Result<Self, ErrorKind>)
        requires
            self.wf(),
        ensures
            set matches Ok(builder) && builder.wf() && builder@ == self@.hop_limit(value),
    {
        let mut this = self;
        let data = this.buffer.data_mut();
        data[7] = value;
        Ok(this)
    }

    /// Source address.
    pub fn source(self, value: Address) -> (set: Result<Self, ErrorKind>)
        requires
            self.wf(),
        ensures
            set matches Ok(builder) && builder.wf() && builder@ == self@.source(value),
    {
        let mut this = self;
        let octets = value.octets();
        store_bytes(this.buffer.data_mut(), 8, octets.as_slice());
        assert(this@.bytes =~= self@.source(value).bytes);
        Ok(this)
    }

    /// Destination address.
    pub fn destination(self, value: Address) -> (set: Result<Self, ErrorKind>)
        requires
            self.wf(),
        ensures
            set matches Ok(builder) && builder.wf() && builder@ == self@.destination(value),
    {
        let mut this = self;
        let octets = value.octets();
        store_bytes(this.buffer.data_mut(), 24, octets.as_slice());
        assert(this@.bytes =~= self@.destination(value).bytes);
        Ok(this)
    }

    /// Inner protocol.
    pub fn next_header(self, value: Protocol) -> (set: Result<Self, ErrorKind>)
        requires
            self.wf(),
        ensures
            set matches Ok(builder) && builder.wf() && builder@ == self@.next_header(value),
    {
        let mut this = self;
        let data = this.buffer.data_mut();
        data[6] = value.into();
        Ok(this)
    }

    /// Payload for the packet. A builder takes a payload once, and not after
    /// an inner protocol was entered.
    pub fn payload(self, value: &[u8]) -> (set: Result<Self, ErrorKind>)
        requires
            self.wf(),
        ensures
            match set {
                Ok(builder) => {
                    &&& !self@.payload
                    &&& self@.bytes.len() + value@.len() <= self@.limit
                    &&& builder.wf()
                    &&& builder@ == self@.payload(value@)
                },
                Err(kind) => if self@.payload {
                    kind == ErrorKind::AlreadyDefined
                } else {
                    kind == ErrorKind::SmallBuffer && self@.bytes.len() + value@.len()
                        > self@.limit
                },
            },
    {
        let mut this = self;
        if this.payload {
            return Err(ErrorKind::AlreadyDefined);
        }
        this.payload = true;

        let filled: usize = this.buffer.length() - this.buffer.offset();
        this.buffer.more(value.len())?;
        store_bytes(this.buffer.data_mut(), filled, value);
        assert(this@.bytes =~= self@.bytes + value@);
        Ok(this)
    }

    /// Build a UDP packet. The datagram becomes the payload of this packet,
    /// so a builder that already has a payload refuses.
    pub fn udp(self) -> (entered: Result<udp::Builder<B>, ErrorKind>)
        requires
            self.wf(),
        ensures
            match entered {
                Ok(builder) => {
                    &&& !self@.payload
                    &&& self@.bytes.len() + 8 <= self@.limit
                    &&& builder.wf()
                    &&& builder@ == self@.udp()
                },
                Err(kind) => if self@.payload {
                    kind == ErrorKind::AlreadyDefined
                } else {
                    kind == ErrorKind::SmallBuffer && self@.bytes.len() + 8 > self@.limit
                },
            },
    {
        if self.payload {
            return Err(ErrorKind::AlreadyDefined);
        }
        let mut this = self.next_header(Protocol::Udp)?;
        this.prepare();

        let mut builder = udp::Builder::with(this.buffer)?;
        builder.finalizer().extend(this.finalizer);

        Ok(builder)
    }

    fn prepare(&mut self)
        requires
            old(self).wf(),
        ensures
            final(self).wf(),
            final(self)@ == old(self)@.prepare(),
    {
        let offset: usize = self.buffer.offset();
        let length: usize = self.buffer.length();

        self.finalizer.add(Patch::Ipv6 { offset, length });
    }
}

} // verus!
