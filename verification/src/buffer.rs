//! A reusable bounded buffer with one-way read support.
//!
//! The buffer holds at most `SIZE` bytes. Reads consume from the front of the
//! unread region; the buffer is refilled only through an explicit `set`,
//! which replaces the whole contents. The UTF-8 re-encoder uses it to carry
//! the trailing bytes of a character that did not fully fit into one read.

use vstd::math::min;
use vstd::prelude::*;

verus! {

/// Appends the first `n` bytes of `src` to `out`.
pub(crate) fn push_some(out: &mut Vec<u8>, src: &Vec<u8>, n: usize)
    requires
        n <= src.len(),
    ensures
        final(out)@ == old(out)@ + src@.take(n as int),
{
    let mut i: usize = 0;
    while i < n
        invariant
            n <= src.len(),
            i <= n,
            out@ == old(out)@ + src@.take(i as int),
        decreases n - i,
    {
        out.push(src[i]);
        i = i + 1;
        proof {
            assert(out@ =~= old(out)@ + src@.take(i as int));
        }
    }
}

/// A copy of `src` from `start` to its end.
pub(crate) fn tail_from(src: &Vec<u8>, start: usize) -> (r: Vec<u8>)
    requires
        start <= src.len(),
    ensures
        r@ == src@.skip(start as int),
{
    let mut out: Vec<u8> = Vec::new();
    let mut i: usize = start;
    while i < src.len()
        invariant
            start <= i <= src.len(),
            out@ == src@.subrange(start as int, i as int),
        decreases src.len() - i,
    {
        out.push(src[i]);
        i = i + 1;
        proof {
            assert(out@ =~= src@.subrange(start as int, i as int));
        }
    }
    proof {
        assert(out@ =~= src@.skip(start as int));
    }
    out
}

/// A copy of the first `n` bytes of `src`.
pub(crate) fn head_from(src: &Vec<u8>, n: usize) -> (r: Vec<u8>)
    requires
        n <= src.len(),
    ensures
        r@ == src@.take(n as int),
{
    let mut out: Vec<u8> = Vec::new();
    push_some(&mut out, src, n);
    out
}

/// A bounded buffer of at most `SIZE` bytes with a read cursor.
pub struct ArrayBuffer<const SIZE: usize> {
    buf: Vec<u8>,
    pos: usize,
}

impl<const SIZE: usize> ArrayBuffer<SIZE> {
    /// The read cursor stays within the contents, and the contents within the
    /// capacity.
    pub closed spec fn wf(&self) -> bool {
        self.pos <= self.buf.len() <= SIZE
    }

    /// The bytes not yet read.
    pub closed spec fn unread(&self) -> Seq<u8> {
        self.buf@.skip(self.pos as int)
    }

    /// How many bytes the buffer holds, read and unread together; writes
    /// stop at the capacity `SIZE`.
    pub closed spec fn contents_len(&self) -> int {
        self.buf@.len() as int
    }

    /// Returns a new empty buffer.
    pub fn new() -> (r: Self)
        ensures
            r.wf(),
            r.unread() == Seq::<u8>::empty(),
    {
        let r = ArrayBuffer { buf: Vec::new(), pos: 0 };
        proof {
            assert(r.unread() =~= Seq::<u8>::empty());
        }
        r
    }

    /// Returns whether the buffer holds no unread content.
    pub fn is_empty(&self) -> (r: bool)
        requires
            self.wf(),
        ensures
            r == (self.unread().len() == 0),
    {
        self.pos == self.buf.len()
    }

    /// Empties and reinitializes the buffer with the given unread bytes.
    pub fn set(&mut self, data: Vec<u8>)
        requires
            old(self).wf(),
            data.len() <= SIZE,
        ensures
            final(self).wf(),
            final(self).unread() == data@,
    {
        self.buf = data;
        self.pos = 0;
        proof {
            assert(self.unread() =~= self.buf@);
        }
    }

    /// Appends to the unread bytes as much of `data` as the capacity still
    /// allows, and returns how many bytes were taken. Space already read is
    /// never reclaimed; only `set` resets the buffer.
    pub fn write(&mut self, data: &Vec<u8>) -> (n: usize)
        requires
            old(self).wf(),
        ensures
            final(self).wf(),
            n == min(data@.len() as int, SIZE - old(self).contents_len()),
            final(self).unread() == old(self).unread() + data@.take(n as int),
            final(self).contents_len() == old(self).contents_len() + n,
    {
        let space = SIZE - self.buf.len();
        let n = if data.len() < space {
            data.len()
        } else {
            space
        };
        push_some(&mut self.buf, data, n);
        proof {
            assert(self.unread() =~= old(self).unread() + data@.take(n as int));
        }
        n
    }

    /// Consumes and returns up to `max` unread bytes; fewer only when fewer
    /// are left.
    pub fn read(&mut self, max: usize) -> (r: Vec<u8>)
        requires
            old(self).wf(),
        ensures
            final(self).wf(),
            r@ == old(self).unread().take(min(max as int, old(self).unread().len() as int)),
            final(self).unread() == old(self).unread().skip(r@.len() as int),
    {
        let avail = self.buf.len() - self.pos;
        let n = if max < avail {
            max
        } else {
            avail
        };
        let mut out: Vec<u8> = Vec::new();
        let mut i: usize = 0;
        while i < n
            invariant
                self.wf(),
                self == old(self),
                n <= self.buf.len() - self.pos,
                i <= n,
                out@ == self.unread().take(i as int),
            decreases n - i,
        {
            let b = self.buf[self.pos + i];
            out.push(b);
            i = i + 1;
            proof {
                assert(out@ =~= self.unread().take(i as int));
            }
        }
        self.pos = self.pos + n;
        proof {
            assert(out@ =~= old(self).unread().take(
                min(max as int, old(self).unread().len() as int),
            ));
            assert(self.unread() =~= old(self).unread().skip(out@.len() as int));
        }
        out
    }
}

} // verus!
