//! Buffers that builders write packets into.
//!
//! A buffer holds the bytes of every layer written so far and remembers where
//! the current layer starts. Positions are counted from the start of the
//! whole buffer, so they stay valid while the buffer grows.

use crate::error::ErrorKind;
use vstd::prelude::*;
use vstd::slice::slice_subrange;

verus! {

/// `count` zero bytes.
pub open spec fn zeros(count: nat) -> Seq<u8> {
    Seq::new(count, |i: int| 0u8)
}

/// A byte buffer that the layers of a packet are written into, one after the
/// other.
pub trait Buffer: Sized {
    /// Whether the buffer is in a consistent state.
    spec fn wf(&self) -> bool;

    /// Every byte written so far, from the first layer on.
    spec fn bytes(&self) -> Seq<u8>;

    /// Where the current layer starts.
    spec fn start(&self) -> nat;

    /// The most bytes that the buffer can hold.
    spec fn limit(&self) -> nat;

    /// The current layer starts inside what was written, and what was written
    /// fits in the buffer.
    proof fn lemma_bounds(&self)
        requires
            self.wf(),
        ensures
            self.start() <= self.bytes().len() <= self.limit() <= usize::MAX,
    ;

    /// Gives up the buffer for the bytes written into it.
    fn into_inner(self) -> (inner: Vec<u8>)
        requires
            self.wf(),
        ensures
            inner@ == self.bytes(),
    ;

    /// Starts a new layer of `size` zero bytes after everything written so
    /// far. Fails, and changes nothing, if the buffer cannot hold that much.
    fn next(&mut self, size: usize) -> (reserved: Result<(), ErrorKind>)
        requires
            old(self).wf(),
        ensures
            final(self).wf(),
            final(self).limit() == old(self).limit(),
            match reserved {
                Ok(_) => {
                    &&& old(self).bytes().len() + size <= old(self).limit()
                    &&& final(self).bytes() == old(self).bytes() + zeros(size as nat)
                    &&& final(self).start() == old(self).bytes().len()
                },
                Err(kind) => {
                    &&& kind == ErrorKind::SmallBuffer
                    &&& old(self).bytes().len() + size > old(self).limit()
                    &&& final(self).bytes() == old(self).bytes()
                    &&& final(self).start() == old(self).start()
                },
            },
    ;

    /// Appends `size` zero bytes to the current layer. Fails, and changes
    /// nothing, if the buffer cannot hold that much.
    fn more(&mut self, size: usize) -> (reserved: Result<(), ErrorKind>)
        requires
            old(self).wf(),
        ensures
            final(self).wf(),
            final(self).limit() == old(self).limit(),
            final(self).start() == old(self).start(),
            match reserved {
                Ok(_) => {
                    &&& old(self).bytes().len() + size <= old(self).limit()
                    &&& final(self).bytes() == old(self).bytes() + zeros(size as nat)
                },
                Err(kind) => {
                    &&& kind == ErrorKind::SmallBuffer
                    &&& old(self).bytes().len() + size > old(self).limit()
                    &&& final(self).bytes() == old(self).bytes()
                },
            },
    ;

    /// Where the current layer starts.
    fn offset(&self) -> (offset: usize)
        requires
            self.wf(),
        ensures
            offset == self.start(),
    ;

    /// How many bytes were written so far, over all layers.
    fn length(&self) -> (length: usize)
        requires
            self.wf(),
        ensures
            length == self.bytes().len(),
    ;

    /// The bytes of the current layer.
    fn data(&self) -> (data: &[u8])
        requires
            self.wf(),
        ensures
            data@ == self.bytes().subrange(self.start() as int, self.bytes().len() as int),
    ;

    /// The bytes of the current layer, for writing. Earlier layers stay as
    /// they are, and the buffer stays consistent as long as the layer keeps
    /// its length.
    fn data_mut(&mut self) -> (data: &mut [u8])
        requires
            old(self).wf(),
        ensures
            data@ == old(self).bytes().subrange(
                old(self).start() as int,
                old(self).bytes().len() as int,
            ),
            final(self).limit() == old(self).limit(),
            final(self).start() == old(self).start(),
            final(self).bytes() == old(self).bytes().subrange(0, old(self).start() as int)
                + final(data)@,
            final(data)@.len() == data@.len() ==> final(self).wf(),
    ;
}

/// A buffer that grows as layers are written.
pub struct Dynamic {
    inner: Vec<u8>,
    offset: usize,
}

impl Dynamic {
    /// An empty buffer.
    pub fn new() -> (buffer: Dynamic)
        ensures
            buffer.wf(),
            buffer.bytes() == Seq::<u8>::empty(),
            buffer.start() == 0,
            buffer.limit() == usize::MAX,
    {
        Dynamic { inner: Vec::new(), offset: 0 }
    }
}

impl Default for Dynamic {
    fn default() -> (buffer: Dynamic)
        ensures
            buffer.wf(),
            buffer.bytes() == Seq::<u8>::empty(),
            buffer.start() == 0,
            buffer.limit() == usize::MAX,
    {
        Dynamic::new()
    }
}

impl Buffer for Dynamic {
    closed spec fn wf(&self) -> bool {
        self.offset <= self.inner@.len() <= usize::MAX
    }

    closed spec fn bytes(&self) -> Seq<u8> {
        self.inner@
    }

    closed spec fn start(&self) -> nat {
        self.offset as nat
    }

    open spec fn limit(&self) -> nat {
        usize::MAX as nat
    }

    proof fn lemma_bounds(&self) {
    }

    fn into_inner(self) -> (inner: Vec<u8>) {
        self.inner
    }

    fn next(&mut self, size: usize) -> (reserved: Result<(), ErrorKind>) {
        let current: usize = self.inner.len();
        if size > usize::MAX - current {
            return Err(ErrorKind::SmallBuffer);
        }
        self.inner.resize(current + size, 0);
        self.offset = current;
        assert(self.inner@ =~= old(self).inner@ + zeros(size as nat));
        Ok(())
    }

    fn more(&mut self, size: usize) -> (reserved: Result<(), ErrorKind>) {
        let current: usize = self.inner.len();
        if size > usize::MAX - current {
            return Err(ErrorKind::SmallBuffer);
        }
        self.inner.resize(current + size, 0);
        assert(self.inner@ =~= old(self).inner@ + zeros(size as nat));
        Ok(())
    }

    fn offset(&self) -> (offset: usize) {
        self.offset
    }

    fn length(&self) -> (length: usize) {
        self.inner.len()
    }

    fn data(&self) -> (data: &[u8]) {
        slice_subrange(self.inner.as_slice(), self.offset, self.inner.len())
    }

    fn data_mut(&mut self) -> (data: &mut [u8]) {
        self.inner.as_mut_slice().split_at_mut(self.offset).1
    }
}

/// A buffer that holds no more than a set number of bytes.
pub struct Fixed {
    inner: Vec<u8>,
    offset: usize,
    capacity: usize,
}

impl Fixed {
    /// An empty buffer that can hold `capacity` bytes.
    pub fn new(capacity: usize) -> (buffer: Fixed)
        ensures
            buffer.wf(),
            buffer.bytes() == Seq::<u8>::empty(),
            buffer.start() == 0,
            buffer.limit() == capacity,
    {
        Fixed { inner: Vec::new(), offset: 0, capacity }
    }
}

impl Buffer for Fixed {
    closed spec fn wf(&self) -> bool {
        self.offset <= self.inner@.len() <= self.capacity
    }

    closed spec fn bytes(&self) -> Seq<u8> {
        self.inner@
    }

    closed spec fn start(&self) -> nat {
        self.offset as nat
    }

    closed spec fn limit(&self) -> nat {
        self.capacity as nat
    }

    proof fn lemma_bounds(&self) {
    }

    fn into_inner(self) -> (inner: Vec<u8>) {
        self.inner
    }

    fn next(&mut self, size: usize) -> (reserved: Result<(), ErrorKind>) {
        let current: usize = self.inner.len();
        if size > self.capacity - current {
            return Err(ErrorKind::SmallBuffer);
        }
        self.inner.resize(current + size, 0);
        self.offset = current;
        assert(self.inner@ =~= old(self).inner@ + zeros(size as nat));
        Ok(())
    }

    fn more(&mut self, size: usize) -> (reserved: Result<(), ErrorKind>) {
        let current: usize = self.inner.len();
        if size > self.capacity - current {
            return Err(ErrorKind::SmallBuffer);
        }
        self.inner.resize(current + size, 0);
        assert(self.inner@ =~= old(self).inner@ + zeros(size as nat));
        Ok(())
    }

    fn offset(&self) -> (offset: usize) {
        self.offset
    }

    fn length(&self) -> (length: usize) {
        self.inner.len()
    }

    fn data(&self) -> (data: &[u8]) {
        slice_subrange(self.inner.as_slice(), self.offset, self.inner.len())
    }

    fn data_mut(&mut self) -> (data: &mut [u8]) {
        self.inner.as_mut_slice().split_at_mut(self.offset).1
    }
}

} // verus!

