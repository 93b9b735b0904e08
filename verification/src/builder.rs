//! Work that a builder leaves for the end.
//!
//! A header holds fields that depend on what later layers write: a length, a
//! checksum. A builder cannot fill them in while it writes its header, so it
//! leaves a patch with the places it will need, and the patches run once the
//! last layer is written.

use crate::error::ErrorKind;
use crate::ip;
use crate::udp;
use vstd::prelude::*;

verus! {

/// A change to make to the finished bytes of a packet. Every place in it is
/// counted from the start of the buffer.
#[derive(Debug, Clone, Copy, PartialEq, Eq)]
pub enum Patch {
    /// Seals the IPv6 header at `offset`, committed when the buffer held
    /// `length` bytes.
    Ipv6 { offset: usize, length: usize },
    /// Seals the UDP datagram at `offset`, carried by the IP header at `ip`.
    Udp { ip: usize, offset: usize },
}

impl Patch {
    /// What the patch makes of `bytes`: the patched bytes, or why it cannot
    /// be applied to them.
    pub open spec fn outcome(self, bytes: Seq<u8>) -> Result<Seq<u8>, ErrorKind> {
        match self {
            Patch::Ipv6 { offset, length } => {
                if ip::v6::builder::seal_fits(bytes.len(), offset as nat, length as nat) {
                    Ok(ip::v6::builder::sealed(bytes, offset as int, length as int))
                } else {
                    Err(ErrorKind::SmallBuffer)
                }
            },
            Patch::Udp { ip, offset } => {
                match udp::builder::seal_fault(bytes, ip as nat, offset as nat) {
                    Some(kind) => Err(kind),
                    None => Ok(udp::builder::sealed(bytes, ip as int, offset as int)),
                }
            },
        }
    }

    /// Whether the patch may write the byte at `at`.
    pub open spec fn touches(self, at: int) -> bool {
        match self {
            Patch::Ipv6 { offset, length } => at == offset || at == offset + 4 || at == offset + 5,
            Patch::Udp { ip, offset } => offset + 4 <= at < offset + 8,
        }
    }

    /// Whether the byte at `at`, of `total`, is one of those that decide
    /// whether the patch `holds`.
    pub open spec fn covers(self, total: nat, at: int) -> bool {
        match self {
            Patch::Ipv6 { offset, length } => at == offset || at == offset + 4 || at == offset + 5,
            Patch::Udp { ip, offset } => ip + 8 <= at < ip + 40 || offset <= at < total,
        }
    }

    /// Whether every byte that the patch may write lies before `bound`.
    pub open spec fn below(self, bound: nat) -> bool {
        match self {
            Patch::Ipv6 { offset, length } => offset + 6 <= bound,
            Patch::Udp { ip, offset } => offset + 8 <= bound,
        }
    }

    /// Whether `bytes` are as the patch leaves them: the fields that it fills
    /// in are right for the bytes as they are.
    pub open spec fn holds(self, bytes: Seq<u8>) -> bool {
        match self {
            Patch::Ipv6 { offset, length } => ip::v6::builder::is_sealed(
                bytes,
                offset as int,
                length as int,
            ),
            Patch::Udp { ip, offset } => udp::builder::is_sealed(bytes, ip as int, offset as int),
        }
    }

    /// Whether `other` writes none of the bytes that decide whether this
    /// patch holds, in a buffer of `total` bytes.
    pub open spec fn apart(self, other: Patch, total: nat) -> bool {
        forall|at: int| !(self.covers(total, at) && #[trigger] other.touches(at))
    }

    /// Applies the patch to the finished bytes of a packet. A patch that
    /// fails writes nothing.
    pub fn apply(&self, out: &mut [u8]) -> (done: Result<(), ErrorKind>)
        ensures
            final(out)@.len() == old(out)@.len(),
            match done {
                Ok(_) => self.outcome(old(out)@) == Ok::<Seq<u8>, ErrorKind>(final(out)@),
                Err(kind) => {
                    &&& self.outcome(old(out)@) == Err::<Seq<u8>, ErrorKind>(kind)
                    &&& final(out)@ == old(out)@
                },
            },
    {
        match self {
            Patch::Ipv6 { offset, length } => ip::v6::builder::seal(out, *offset, *length),
            Patch::Udp { ip, offset } => udp::builder::seal(out, *ip, *offset),
        }
    }
}

/// What a run of patches, applied first to last, makes of `bytes`: the
/// patched bytes, or the failure of the first patch that cannot be applied.
pub open spec fn finalized(patches: Seq<Patch>, bytes: Seq<u8>) -> Result<Seq<u8>, ErrorKind>
    decreases patches.len(),
{
    if patches.len() == 0 {
        Ok(bytes)
    } else {
        match patches[0].outcome(bytes) {
            Ok(patched) => finalized(patches.skip(1), patched),
            Err(kind) => Err(kind),
        }
    }
}

/// A patch keeps the length of the bytes, and changes none but those that it
/// touches.
pub proof fn lemma_outcome_frame(patch: Patch, bytes: Seq<u8>)
    requires
        patch.outcome(bytes) is Ok,
    ensures
        patch.outcome(bytes)->Ok_0.len() == bytes.len(),
        forall|at: int|
            0 <= at < bytes.len() && !patch.touches(at) ==> #[trigger] patch.outcome(
                bytes,
            )->Ok_0[at] == bytes[at],
{
}

/// A patch that was applied holds.
pub proof fn lemma_outcome_holds(patch: Patch, bytes: Seq<u8>)
    requires
        patch.outcome(bytes) is Ok,
    ensures
        patch.holds(patch.outcome(bytes)->Ok_0),
{
    match patch {
        Patch::Ipv6 { offset, length } => {
            ip::v6::builder::lemma_sealed_is_sealed(bytes, offset as nat, length as nat);
        },
        Patch::Udp { ip, offset } => {
            udp::builder::lemma_sealed_is_sealed(bytes, ip as nat, offset as nat);
        },
    }
}

/// A patch that holds still holds after another is applied that is apart
/// from it.
pub proof fn lemma_holds_kept(patch: Patch, other: Patch, bytes: Seq<u8>)
    requires
        patch.holds(bytes),
        other.outcome(bytes) is Ok,
        patch.apart(other, bytes.len()),
    ensures
        patch.holds(other.outcome(bytes)->Ok_0),
{
    let after = other.outcome(bytes)->Ok_0;
    lemma_outcome_frame(other, bytes);
    assert forall|at: int| 0 <= at < bytes.len() && patch.covers(bytes.len(), at) implies after[at]
        == bytes[at] by {
        assert(!other.touches(at));
    }
    match patch {
        Patch::Ipv6 { offset, length } => {
            assert(patch.covers(bytes.len(), offset as int));
            assert(patch.covers(bytes.len(), offset + 4));
            assert(patch.covers(bytes.len(), offset + 5));
        },
        Patch::Udp { ip, offset } => {
            assert(patch.covers(bytes.len(), offset + 4));
            assert(patch.covers(bytes.len(), offset + 5));
            assert(patch.covers(bytes.len(), offset + 6));
            assert(patch.covers(bytes.len(), offset + 7));
            udp::builder::lemma_datagram_sum_frame(bytes, after, ip as int, offset as int);
        },
    }
}

/// Patches keep the length of the bytes.
pub proof fn lemma_finalized_length(patches: Seq<Patch>, bytes: Seq<u8>)
    requires
        finalized(patches, bytes) is Ok,
    ensures
        finalized(patches, bytes)->Ok_0.len() == bytes.len(),
    decreases patches.len(),
{
    if patches.len() > 0 {
        lemma_outcome_frame(patches[0], bytes);
        lemma_finalized_length(patches.skip(1), patches[0].outcome(bytes)->Ok_0);
    }
}

/// Patches that write before `bound` leave the bytes from `bound` on as they
/// are.
pub proof fn lemma_finalized_below(patches: Seq<Patch>, bytes: Seq<u8>, bound: nat)
    requires
        finalized(patches, bytes) is Ok,
        forall|j: int| 0 <= j < patches.len() ==> (#[trigger] patches[j]).below(bound),
    ensures
        finalized(patches, bytes)->Ok_0.len() == bytes.len(),
        forall|at: int|
            bound <= at < bytes.len() ==> #[trigger] finalized(patches, bytes)->Ok_0[at]
                == bytes[at],
    decreases patches.len(),
{
    if patches.len() > 0 {
        let after = patches[0].outcome(bytes)->Ok_0;
        let rest = patches.skip(1);
        lemma_outcome_frame(patches[0], bytes);
        assert(patches[0].below(bound));
        assert forall|j: int| 0 <= j < rest.len() implies (#[trigger] rest[j]).below(bound) by {
            assert(rest[j] == patches[j + 1]);
        }
        lemma_finalized_below(rest, after, bound);
        assert forall|at: int| bound <= at < bytes.len() implies #[trigger] finalized(
            patches,
            bytes,
        )->Ok_0[at] == bytes[at] by {
            assert(!patches[0].touches(at));
            assert(after[at] == bytes[at]);
        }
    }
}

/// A patch that holds still holds after a run of patches that are all apart
/// from it.
pub proof fn lemma_finalized_keeps(patch: Patch, patches: Seq<Patch>, bytes: Seq<u8>)
    requires
        patch.holds(bytes),
        finalized(patches, bytes) is Ok,
        forall|j: int| 0 <= j < patches.len() ==> patch.apart(#[trigger] patches[j], bytes.len()),
    ensures
        patch.holds(finalized(patches, bytes)->Ok_0),
    decreases patches.len(),
{
    if patches.len() > 0 {
        let after = patches[0].outcome(bytes)->Ok_0;
        let rest = patches.skip(1);
        lemma_outcome_frame(patches[0], bytes);
        lemma_holds_kept(patch, patches[0], bytes);
        assert forall|j: int| 0 <= j < rest.len() implies patch.apart(
            #[trigger] rest[j],
            after.len(),
        ) by {
            assert(rest[j] == patches[j + 1]);
        }
        lemma_finalized_keeps(patch, rest, after);
    }
}

/// However many layers have left patches, each patch holds in the finished
/// bytes if every patch that runs after it is apart from it: the lengths and
/// checksums of all layers are right together.
pub proof fn lemma_finalized_holds(patches: Seq<Patch>, bytes: Seq<u8>, i: int)
    requires
        finalized(patches, bytes) is Ok,
        0 <= i < patches.len(),
        forall|j: int| i < j < patches.len() ==> patches[i].apart(#[trigger] patches[j], bytes.len()),
    ensures
        patches[i].holds(finalized(patches, bytes)->Ok_0),
    decreases patches.len(),
{
    let after = patches[0].outcome(bytes)->Ok_0;
    let rest = patches.skip(1);
    lemma_outcome_frame(patches[0], bytes);
    if i == 0 {
        lemma_outcome_holds(patches[0], bytes);
        assert forall|j: int| 0 <= j < rest.len() implies patches[0].apart(
            #[trigger] rest[j],
            after.len(),
        ) by {
            assert(rest[j] == patches[j + 1]);
        }
        lemma_finalized_keeps(patches[0], rest, after);
    } else {
        assert(rest[i - 1] == patches[i]);
        assert forall|j: int| i - 1 < j < rest.len() implies rest[i - 1].apart(
            #[trigger] rest[j],
            after.len(),
        ) by {
            assert(rest[j] == patches[j + 1]);
        }
        lemma_finalized_holds(rest, after, i - 1);
    }
}

/// Sealing a header and then the datagram that follows it leaves both
/// sealed: the header declares the length of the datagram, the datagram its
/// own length and a checksum that is right for the finished bytes. No other
/// byte changes.
pub proof fn lemma_sealed_layers(bytes: Seq<u8>, start: usize)
    requires
        start + 48 <= bytes.len() <= usize::MAX,
    ensures
        ({
            let header = Patch::Ipv6 { offset: start, length: (start + 40) as usize };
            let datagram = Patch::Udp { ip: start, offset: (start + 40) as usize };
            let built = finalized(seq![header, datagram], bytes);
            &&& built is Ok
            &&& built->Ok_0.len() == bytes.len()
            &&& header.holds(built->Ok_0)
            &&& datagram.holds(built->Ok_0)
            &&& built->Ok_0[start as int] >> 4 == 6
            &&& forall|at: int|
                0 <= at < bytes.len() && !header.touches(at) && !datagram.touches(at)
                    ==> #[trigger] built->Ok_0[at] == bytes[at]
        }),
{
    let header = Patch::Ipv6 { offset: start, length: (start + 40) as usize };
    let datagram = Patch::Udp { ip: start, offset: (start + 40) as usize };
    let patches = seq![header, datagram];
    let middle = ip::v6::builder::sealed(bytes, start as int, start + 40);
    let first = bytes[start as int];
    assert(((first & 0x0f) | 0x60) >> 4 == 6) by (bit_vector);
    assert(header.outcome(bytes) == Ok::<Seq<u8>, ErrorKind>(middle));
    assert(middle.subrange(start as int, start + 40)[0] == (first & 0x0f) | 0x60);
    assert(udp::builder::seal_fault(middle, start as nat, (start + 40) as nat) is None);
    let out = udp::builder::sealed(middle, start as int, start + 40);
    assert(datagram.outcome(middle) == Ok::<Seq<u8>, ErrorKind>(out));
    assert(patches.skip(1) =~= seq![datagram]);
    assert(patches.skip(1).skip(1) =~= Seq::<Patch>::empty());
    reveal_with_fuel(finalized, 3);
    assert(finalized(patches, bytes) == Ok::<Seq<u8>, ErrorKind>(out));
    assert forall|j: int| 0 < j < patches.len() implies patches[0].apart(
        #[trigger] patches[j],
        bytes.len(),
    ) by {
        assert(patches[j] == datagram);
    }
    lemma_finalized_holds(patches, bytes, 0);
    lemma_finalized_holds(patches, bytes, 1);
    lemma_outcome_frame(header, bytes);
    lemma_outcome_frame(datagram, middle);
    assert(out[start as int] == (first & 0x0f) | 0x60);
}

/// Running two runs of patches one after the other is running them joined.
pub proof fn lemma_finalized_joined(first: Seq<Patch>, second: Seq<Patch>, bytes: Seq<u8>)
    ensures
        finalized(first + second, bytes) == match finalized(first, bytes) {
            Ok(patched) => finalized(second, patched),
            Err(kind) => Err(kind),
        },
    decreases first.len(),
{
    if first.len() == 0 {
        assert(first + second =~= second);
    } else {
        assert((first + second)[0] == first[0]);
        assert((first + second).skip(1) =~= first.skip(1) + second);
        match first[0].outcome(bytes) {
            Ok(patched) => {
                lemma_finalized_joined(first.skip(1), second, patched);
            },
            Err(_) => {},
        }
    }
}

/// The patches that the layers of a packet have left, in the order in which
/// they were registered.
pub struct Finalization {
    patches: Vec<Patch>,
}

impl View for Finalization {
    type V = Seq<Patch>;

    closed spec fn view(&self) -> Seq<Patch> {
        self.patches@
    }
}

impl Default for Finalization {
    fn default() -> (finalization: Finalization)
        ensures
            finalization@ == Seq::<Patch>::empty(),
    {
        Finalization { patches: Vec::new() }
    }
}

impl Finalization {
    /// Registers a patch after those already registered.
    pub fn add(&mut self, patch: Patch)
        ensures
            final(self)@ == old(self)@.push(patch),
    {
        self.patches.push(patch);
    }

    /// Registers the patches of `other`, in their order, after those already
    /// registered.
    pub fn extend(&mut self, other: Finalization)
        ensures
            final(self)@ == old(self)@ + other@,
    {
        let mut other = other;
        self.patches.append(&mut other.patches);
    }

    /// Applies every patch, first to last, to the finished bytes of a packet,
    /// and stops at the first that fails.
    pub fn finalize(self, buffer: &mut [u8]) -> (done: Result<(), ErrorKind>)
        ensures
            final(buffer)@.len() == old(buffer)@.len(),
            match done {
                Ok(_) => finalized(self@, old(buffer)@) == Ok::<Seq<u8>, ErrorKind>(
                    final(buffer)@,
                ),
                Err(kind) => finalized(self@, old(buffer)@) == Err::<Seq<u8>, ErrorKind>(kind),
            },
    {
        let mut i: usize = 0;
        assert(self.patches@.skip(0) =~= self.patches@);
        while i < self.patches.len()
            invariant
                i <= self.patches@.len(),
                buffer@.len() == old(buffer)@.len(),
                finalized(self.patches@, old(buffer)@) == finalized(
                    self.patches@.skip(i as int),
                    buffer@,
                ),
            decreases self.patches@.len() - i,
        {
            let ghost before = buffer@;
            let ghost rest = self.patches@.skip(i as int);
            assert(rest[0] == self.patches@[i as int]);
            assert(rest.skip(1) =~= self.patches@.skip(i + 1));
            match self.patches[i].apply(buffer) {
                Ok(_) => {},
                Err(kind) => {
                    return Err(kind);
                },
            }
            i = i + 1;
        }
        assert(self.patches@.skip(i as int).len() == 0);
        Ok(())
    }
}

} // verus!
