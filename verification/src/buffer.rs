//! Buffers between a stream and the lines that travel over it.
//!
//! A stream delivers bytes in pieces of any size. [`BufReaderDirectWriter`]
//! collects what was received until a whole line can be handed out, and
//! leaves writing to the stream itself. [`BufWriterDirectReader`] does the
//! reverse: it collects what is to be written until it is flushed, and leaves
//! reading to the stream.

use vstd::prelude::*;
use crate::lines::{find_newline, first_newline, lemma_first_byte, line_feed};
use crate::text::push_bytes;

verus! {

/// What a buffered stream is to its users: the stream and the bytes held
/// for it.
pub struct Buffered<T> {
    pub stream: T,
    pub buffer: Seq<u8>,
}

/// A stream with the bytes that were received from it and not yet read.
pub struct BufReaderDirectWriter<T> {
    inner: T,
    pending: Vec<u8>,
}

impl<T> View for BufReaderDirectWriter<T> {
    type V = Buffered<T>;

    open spec fn view(&self) -> Buffered<T> {
        Buffered { stream: self.stream(), buffer: self.buffer() }
    }
}

impl<T> BufReaderDirectWriter<T> {
    /// The stream.
    pub closed spec fn stream(&self) -> T {
        self.inner
    }

    /// The bytes that were received and not yet read.
    pub closed spec fn buffer(&self) -> Seq<u8> {
        self.pending@
    }

    /// Wraps a stream. Nothing has been received from it yet.
    pub fn new(inner: T) -> (r: Self)
        ensures
            r.stream() == inner,
            r.buffer() == Seq::<u8>::empty(),
    {
        BufReaderDirectWriter { inner, pending: Vec::new() }
    }

    /// The stream, to ask it about its peer.
    pub fn get_ref(&self) -> (r: &T)
        ensures
            *r == self.stream(),
    {
        &self.inner
    }

    /// The stream, to receive from it or to write to it directly. The
    /// buffer is not touched, whatever is done to the stream.
    pub fn get_mut(&mut self) -> (r: &mut T)
        ensures
            *r == old(self).stream(),
            final(self).stream() == *final(r),
            final(self).buffer() == old(self).buffer(),
    {
        &mut self.inner
    }

    /// Gives the stream back and drops what was buffered.
    pub fn into_inner(self) -> (r: T)
        ensures
            r == self.stream(),
    {
        self.inner
    }

    /// The number of bytes that were received and not yet read.
    pub fn buffered(&self) -> (n: usize)
        ensures
            n == self.buffer().len(),
    {
        self.pending.len()
    }

    /// Takes in bytes that were received from the stream.
    pub fn fill_buf(&mut self, received: &[u8])
        ensures
            final(self).buffer() == old(self).buffer() + received@,
            final(self).stream() == old(self).stream(),
    {
        push_bytes(&mut self.pending, received);
    }

    /// Drops the first `amt` buffered bytes, or all of them if there are fewer.
    pub fn consume(&mut self, amt: usize)
        ensures
            final(self).buffer() == if amt <= old(self).buffer().len() {
                old(self).buffer().skip(amt as int)
            } else {
                Seq::<u8>::empty()
            },
            final(self).stream() == old(self).stream(),
    {
        if amt >= self.pending.len() {
            self.pending.clear();
            assert(self.pending@ =~= old(self).buffer().skip(old(self).buffer().len() as int));
        } else {
            let mut rest = self.pending.split_off(amt);
            core::mem::swap(&mut self.pending, &mut rest);
            assert(self.pending@ =~= old(self).buffer().skip(amt as int));
        }
    }

    /// Hands out the first buffered line, line feed included, once the
    /// buffer holds a line feed. Until then it hands out nothing and keeps
    /// what it has.
    pub fn read_line(&mut self) -> (line: Option<Vec<u8>>)
        ensures
            final(self).stream() == old(self).stream(),
            ({
                let b = old(self).buffer();
                let k = first_newline(b);
                if k < b.len() {
                    &&& line matches Some(l)
                    &&& l@ == b.subrange(0, k + 1)
                    &&& final(self).buffer() == b.subrange(k + 1, b.len() as int)
                } else {
                    &&& line is None
                    &&& final(self).buffer() == b
                }
            }),
    {
        let k = find_newline(self.pending.as_slice(), 0);
        proof {
            assert(self.pending@.subrange(0, self.pending@.len() as int) =~= self.pending@);
            lemma_first_byte(self.pending@, line_feed());
        }
        if k < self.pending.len() {
            let mut rest = self.pending.split_off(k + 1);
            core::mem::swap(&mut self.pending, &mut rest);
            Some(rest)
        } else {
            None
        }
    }

    /// Hands out everything that is buffered, as is done when the stream
    /// has come to its end.
    pub fn read_to_end(&mut self) -> (rest: Vec<u8>)
        ensures
            rest@ == old(self).buffer(),
            final(self).buffer() == Seq::<u8>::empty(),
            final(self).stream() == old(self).stream(),
    {
        let mut rest: Vec<u8> = Vec::new();
        core::mem::swap(&mut self.pending, &mut rest);
        rest
    }
}

/// A stream with the bytes that are to be written to it and were not yet
/// flushed.
pub struct BufWriterDirectReader<T> {
    inner: T,
    pending: Vec<u8>,
}

impl<T> View for BufWriterDirectReader<T> {
    type V = Buffered<T>;

    open spec fn view(&self) -> Buffered<T> {
        Buffered { stream: self.stream(), buffer: self.buffer() }
    }
}

impl<T> BufWriterDirectReader<T> {
    /// The stream.
    pub closed spec fn stream(&self) -> T {
        self.inner
    }

    /// The bytes that were written and not yet flushed.
    pub closed spec fn buffer(&self) -> Seq<u8> {
        self.pending@
    }

    /// Wraps a stream. Nothing has been written yet.
    pub fn new(inner: T) -> (r: Self)
        ensures
            r.stream() == inner,
            r.buffer() == Seq::<u8>::empty(),
    {
        BufWriterDirectReader { inner, pending: Vec::new() }
    }

    /// The stream.
    pub fn get_ref(&self) -> (r: &T)
        ensures
            *r == self.stream(),
    {
        &self.inner
    }

    /// The stream, to read from it directly or to write to it what
    /// [`flush`](Self::flush) handed out.
    pub fn get_mut(&mut self) -> (r: &mut T)
        ensures
            *r == old(self).stream(),
            final(self).stream() == *final(r),
            final(self).buffer() == old(self).buffer(),
    {
        &mut self.inner
    }

    /// Buffers bytes for the stream and says how many it took: all of them.
    pub fn write(&mut self, bytes: &[u8]) -> (n: usize)
        ensures
            n == bytes@.len(),
            final(self).buffer() == old(self).buffer() + bytes@,
            final(self).stream() == old(self).stream(),
    {
        push_bytes(&mut self.pending, bytes);
        bytes.len()
    }

    /// Hands out what was buffered, in the order in which it was written,
    /// for the stream to send.
    pub fn flush(&mut self) -> (bytes: Vec<u8>)
        ensures
            bytes@ == old(self).buffer(),
            final(self).buffer() == Seq::<u8>::empty(),
            final(self).stream() == old(self).stream(),
    {
        let mut bytes: Vec<u8> = Vec::new();
        core::mem::swap(&mut self.pending, &mut bytes);
        bytes
    }
}

} // verus!
