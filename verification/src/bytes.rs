//! The transport boundary of the codec: an in-memory byte sink that
//! encoders append to, and an in-memory byte source that decoders consume
//! from.  The surrounding transport layer owns the bytes on both sides; a
//! sink or source is borrowed for the duration of a single call only.

use vstd::prelude::*;

use crate::ErrorKind;

verus! {

/// A byte sink: encoders append bytes to it, one at a time.
///
/// Its view is the sequence of all bytes written so far.
pub struct ByteSink {
    data: Vec<u8>,
}

impl View for ByteSink {
    type V = Seq<u8>;

    closed spec fn view(&self) -> Seq<u8> {
        self.data@
    }
}

impl ByteSink {
    /// An empty sink.
    pub fn new() -> (s: ByteSink)
        ensures
            s@ == Seq::<u8>::empty(),
    {
        ByteSink { data: Vec::new() }
    }

    /// Append one byte.
    pub fn write_byte(&mut self, b: u8)
        ensures
            final(self)@ == old(self)@ + seq![b],
    {
        self.data.push(b);
    }

    /// The number of bytes written so far.
    pub fn len(&self) -> (n: usize)
        ensures
            n as int == self@.len(),
    {
        self.data.len()
    }

    /// Borrow the bytes written so far.
    pub fn as_bytes(&self) -> (r: &Vec<u8>)
        ensures
            r@ == self@,
    {
        &self.data
    }

    /// Hand the written bytes over to the caller.
    pub fn into_bytes(self) -> (r: Vec<u8>)
        ensures
            r@ == self@,
    {
        self.data
    }
}

/// A byte source: decoders consume bytes from the front, one at a time.
///
/// Its view is the sequence of bytes not yet consumed; `all_bytes` is the
/// full underlying sequence and `offset` the number already consumed.
pub struct ByteSource {
    data: Vec<u8>,
    pos: usize,
}

impl View for ByteSource {
    type V = Seq<u8>;

    closed spec fn view(&self) -> Seq<u8> {
        self.data@.skip(self.pos as int)
    }
}

impl ByteSource {
    /// The full underlying byte sequence, consumed or not.
    pub closed spec fn all_bytes(&self) -> Seq<u8> {
        self.data@
    }

    /// How many bytes have been consumed.
    pub closed spec fn offset(&self) -> int {
        self.pos as int
    }

    /// Well-formedness: the read position never passes the end.
    pub closed spec fn inv(&self) -> bool {
        self.pos <= self.data.len()
    }

    /// The remaining bytes are the underlying bytes after the offset.
    pub proof fn lemma_view(&self)
        requires
            self.inv(),
        ensures
            0 <= self.offset() <= self.all_bytes().len(),
            self@ == self.all_bytes().skip(self.offset()),
            self@.len() == self.all_bytes().len() - self.offset(),
    {
    }

    /// A source over the given bytes, none consumed yet.
    pub fn new(data: Vec<u8>) -> (s: ByteSource)
        ensures
            s.inv(),
            s@ == data@,
            s.all_bytes() == data@,
            s.offset() == 0,
    {
        let s = ByteSource { data, pos: 0 };
        proof {
            assert(s@ =~= s.data@);
        }
        s
    }

    /// The number of bytes not yet consumed.
    pub fn remaining(&self) -> (n: usize)
        requires
            self.inv(),
        ensures
            n as int == self@.len(),
    {
        self.data.len() - self.pos
    }

    /// Consume one byte, or report that the source is exhausted.
    pub fn read_byte(&mut self) -> (r: Result<u8, ErrorKind>)
        requires
            old(self).inv(),
        ensures
            final(self).inv(),
            final(self).all_bytes() == old(self).all_bytes(),
            old(self)@.len() > 0 ==> {
                &&& r matches Ok(b) && b == old(self)@[0]
                &&& final(self)@ == old(self)@.skip(1)
            },
            old(self)@.len() == 0 ==> {
                &&& r matches Err(e) && e == ErrorKind::EndOfInput
                &&& final(self)@ == old(self)@
            },
    {
        if self.pos < self.data.len() {
            let b = self.data[self.pos];
            self.pos = self.pos + 1;
            proof {
                assert(self.data@.skip(self.pos as int) =~= old(self)@.skip(1));
            }
            Ok(b)
        } else {
            Err(ErrorKind::EndOfInput)
        }
    }

    /// The current read position, to be handed back to `rewind`.
    pub fn mark(&self) -> (m: usize)
        ensures
            m as int == self.offset(),
    {
        self.pos
    }

    /// Move the read position back to an earlier mark.
    pub fn rewind(&mut self, m: usize)
        requires
            old(self).inv(),
            m as int <= old(self).offset(),
        ensures
            final(self).inv(),
            final(self).all_bytes() == old(self).all_bytes(),
            final(self).offset() == m as int,
            final(self)@ == final(self).all_bytes().skip(m as int),
    {
        self.pos = m;
    }
}

} // verus!
