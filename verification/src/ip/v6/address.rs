//! IPv6 addresses.

use crate::endian::{be16_at, hi8, lo8, load_u16, store_u16};
use vstd::prelude::*;

verus! {

/// An IPv6 address: sixteen octets in network order.
#[derive(Debug, Clone, Copy, PartialEq, Eq)]
pub struct Address {
    pub octets: [u8; 16],
}

impl View for Address {
    type V = Seq<u8>;

    open spec fn view(&self) -> Seq<u8> {
        self.octets@
    }
}

/// The sixteen octets that eight 16-bit groups stand for, each group with its
/// high byte first.
pub open spec fn octets_of(groups: Seq<u16>) -> Seq<u8>
    recommends
        groups.len() == 8,
{
    Seq::new(16, |i: int| if i % 2 == 0 { hi8(groups[i / 2]) } else { lo8(groups[i / 2]) })
}

/// The eight 16-bit groups held in the sixteen octets that start at `at`.
pub open spec fn groups_at(bytes: Seq<u8>, at: int) -> Seq<u16>
    recommends
        0 <= at,
        at + 16 <= bytes.len(),
{
    Seq::new(8, |k: int| be16_at(bytes, at + 2 * k))
}

/// The eight groups read from sixteen octets stand for those octets.
pub proof fn lemma_octets_of_groups(bytes: Seq<u8>, at: int)
    requires
        0 <= at,
        at + 16 <= bytes.len(),
    ensures
        octets_of(groups_at(bytes, at)) == bytes.subrange(at, at + 16),
{
    let octets = octets_of(groups_at(bytes, at));
    let wanted = bytes.subrange(at, at + 16);
    assert forall|i: int| 0 <= i < 16 implies octets[i] == wanted[i] by {
        let k = i / 2;
        assert(groups_at(bytes, at)[k] == be16_at(bytes, at + 2 * k));
    }
    assert(octets =~= wanted);
}

impl Address {
    /// The address written as eight 16-bit groups, as in `a:b:c:d:e:f:g:h`.
    pub fn new(a: u16, b: u16, c: u16, d: u16, e: u16, f: u16, g: u16, h: u16) -> (address: Address)
        ensures
            address@ == octets_of(seq![a, b, c, d, e, f, g, h]),
    {
        let mut octets = [0u8; 16];
        store_u16(&mut octets, 0, a);
        store_u16(&mut octets, 2, b);
        store_u16(&mut octets, 4, c);
        store_u16(&mut octets, 6, d);
        store_u16(&mut octets, 8, e);
        store_u16(&mut octets, 10, f);
        store_u16(&mut octets, 12, g);
        store_u16(&mut octets, 14, h);
        assert(octets@ =~= octets_of(seq![a, b, c, d, e, f, g, h]));
        Address { octets }
    }

    /// The sixteen octets of the address.
    pub fn octets(&self) -> (octets: [u8; 16])
        ensures
            octets@ == self@,
    {
        self.octets
    }

    /// The eight 16-bit groups of the address.
    pub fn segments(&self) -> (groups: [u16; 8])
        ensures
            octets_of(groups@) == self@,
    {
        let data = self.octets.as_slice();
        let groups = [
            load_u16(data, 0),
            load_u16(data, 2),
            load_u16(data, 4),
            load_u16(data, 6),
            load_u16(data, 8),
            load_u16(data, 10),
            load_u16(data, 12),
            load_u16(data, 14),
        ];
        proof {
            lemma_octets_of_groups(self@, 0);
            assert(groups@ =~= groups_at(self@, 0));
            assert(self@.subrange(0, 16) =~= self@);
        }
        groups
    }
}

} // verus!
