//! Storage that a packet view can be laid over.

use vstd::prelude::*;

verus! {

/// Storage that can be read as a run of bytes.
pub trait Bytes {
    /// The bytes held.
    spec fn bytes(&self) -> Seq<u8>;

    /// Borrows the bytes.
    fn as_bytes(&self) -> (data: &[u8])
        ensures
            data@ == self.bytes(),
    ;
}

/// Storage whose bytes can be overwritten in place.
pub trait BytesMut: Bytes {
    /// Borrows the bytes for writing. What is written through the borrow is
    /// what the storage holds afterwards.
    fn as_bytes_mut(&mut self) -> (data: &mut [u8])
        ensures
            data@ == old(self).bytes(),
            final(self).bytes() == final(data)@,
    ;
}

impl Bytes for Vec<u8> {
    open spec fn bytes(&self) -> Seq<u8> {
        self@
    }

    fn as_bytes(&self) -> (data: &[u8]) {
        self.as_slice()
    }
}

impl BytesMut for Vec<u8> {
    fn as_bytes_mut(&mut self) -> (data: &mut [u8]) {
        self.as_mut_slice()
    }
}

impl<'a> Bytes for &'a [u8] {
    open spec fn bytes(&self) -> Seq<u8> {
        (*self)@
    }

    fn as_bytes(&self) -> (data: &[u8]) {
        *self
    }
}

impl<'a> Bytes for &'a mut [u8] {
    open spec fn bytes(&self) -> Seq<u8> {
        (**self)@
    }

    fn as_bytes(&self) -> (data: &[u8]) {
        &**self
    }
}

impl<'a> BytesMut for &'a mut [u8] {
    fn as_bytes_mut(&mut self) -> (data: &mut [u8]) {
        &mut **self
    }
}

/// Copies `source` over the bytes of `data` that start at `at`.
pub fn store_bytes(data: &mut [u8], at: usize, source: &[u8])
    requires
        at + source@.len() <= old(data)@.len(),
    ensures
        final(data)@ == old(data)@.subrange(0, at as int) + source@
            + old(data)@.subrange(at + source@.len(), old(data)@.len() as int),
{
    let total: usize = data.len();
    let mut i: usize = 0;
    while i < source.len()
        invariant
            i <= source@.len(),
            at + source@.len() <= total,
            data@.len() == total,
            old(data)@.len() == total,
            data@ == old(data)@.subrange(0, at as int) + source@.subrange(0, i as int)
                + old(data)@.subrange(at + i, total as int),
        decreases source@.len() - i,
    {
        data[at + i] = source[i];
        i = i + 1;
    }
}

} // verus!
