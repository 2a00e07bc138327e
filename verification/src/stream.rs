//! A seekable stream of bytes held in memory.

use vstd::prelude::*;
use vstd::slice::slice_subrange;

verus! {

/// Bytes with a read position: what a file is to its reader, without the
/// file.
pub struct ByteStream {
    data: Vec<u8>,
    position: usize,
}

impl ByteStream {
    /// All the bytes of the stream, from its start.
    pub closed spec fn content(&self) -> Seq<u8> {
        self.data@
    }

    /// The number of bytes before the read position.
    pub closed spec fn position(&self) -> nat {
        self.position as nat
    }

    /// The bytes from the read position to the end.
    pub open spec fn remaining(&self) -> Seq<u8> {
        self.content().skip(self.position() as int)
    }

    /// The position lies within the stream, and the stream's length fits in
    /// a `usize`.
    pub open spec fn in_bounds(&self) -> bool {
        self.position() <= self.content().len() <= usize::MAX
    }

    /// What holds of every stream: its read position lies within it.
    #[verifier::type_invariant]
    pub closed spec fn consistent(self) -> bool {
        self.position <= self.data@.len()
    }

    /// A stream whose position lies within it is in bounds.
    pub proof fn lemma_in_bounds(self)
        requires
            self.consistent(),
        ensures
            self.in_bounds(),
    {
        assert(self.data@.len() == self.data.len());
    }

    /// A stream over `data`, positioned at its start.
    pub fn new(data: Vec<u8>) -> (stream: Self)
        ensures
            stream.content() == data@,
            stream.position() == 0,
            stream.in_bounds(),
    {
        assert(data@.len() == data.len());
        ByteStream { data, position: 0 }
    }

    /// The total number of bytes.
    pub fn len(&self) -> (n: u64)
        ensures
            n == self.content().len(),
            self.in_bounds(),
    {
        proof {
            use_type_invariant(self);
        }
        self.data.len() as u64
    }

    /// Moves the read position to `offset` bytes from the start, or to the
    /// end where the stream is shorter.
    pub fn seek(&mut self, offset: u64)
        ensures
            final(self).content() == old(self).content(),
            final(self).position() == if offset <= old(self).content().len() {
                offset as nat
            } else {
                old(self).content().len()
            },
            final(self).in_bounds(),
    {
        let length = self.data.len();
        if offset <= length as u64 {
            self.position = offset as usize;
        } else {
            self.position = length;
        }
    }

    /// Hands out the next `max` bytes, or what is left of the stream where
    /// that is less, and moves the read position behind them.
    pub fn read(&mut self, max: usize) -> (chunk: &[u8])
        ensures
            final(self).content() == old(self).content(),
            old(self).in_bounds(),
            final(self).in_bounds(),
            chunk@.len() == if max <= old(self).remaining().len() {
                max as nat
            } else {
                old(self).remaining().len()
            },
            chunk@ == old(self).remaining().take(chunk@.len() as int),
            final(self).position() == old(self).position() + chunk@.len(),
    {
        proof {
            use_type_invariant(&*self);
        }
        let start = self.position;
        let left = self.data.len() - start;
        let taken = if max <= left { max } else { left };
        self.position = start + taken;
        let chunk = slice_subrange(self.data.as_slice(), start, start + taken);
        assert(chunk@ == self.data@.skip(start as int).take(taken as int));
        chunk
    }
}

} // verus!
