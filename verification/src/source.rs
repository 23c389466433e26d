//! An in-memory byte source: the pull-based supplier of raw stream bytes that
//! the decoders and the transcoder consume.
//!
//! Every pull returns zero or more bytes; a zero-length result signals the
//! end of the stream. The surrounding application reads a file or standard
//! input into a `ByteSource` and hands it to the library.

use vstd::math::min;
use vstd::prelude::*;

verus! {

/// A byte stream held in memory, consumed front to back.
pub struct ByteSource {
    data: Vec<u8>,
    cursor: usize,
}

impl ByteSource {
    /// The read cursor never passes the end of the data.
    pub closed spec fn wf(&self) -> bool {
        self.cursor <= self.data.len()
    }

    /// The bytes not yet consumed.
    pub closed spec fn remaining(&self) -> Seq<u8> {
        self.data@.skip(self.cursor as int)
    }

    /// The remaining bytes always fit in a `usize` count.
    pub proof fn lemma_remaining_bounded(&self)
        requires
            self.wf(),
        ensures
            self.remaining().len() <= usize::MAX,
    {
        assert(self.data.len() == self.data@.len());
    }

    /// Wraps a fully buffered stream.
    pub fn new(data: Vec<u8>) -> (r: Self)
        ensures
            r.wf(),
            r.remaining() == data@,
    {
        let r = ByteSource { data, cursor: 0 };
        proof {
            assert(r.remaining() =~= r.data@);
        }
        r
    }

    /// How many bytes are left.
    pub fn remaining_len(&self) -> (r: usize)
        requires
            self.wf(),
        ensures
            r == self.remaining().len(),
    {
        self.data.len() - self.cursor
    }

    /// Consumes and returns the next byte, or `None` at the end of the
    /// stream.
    pub fn next_byte(&mut self) -> (r: Option<u8>)
        requires
            old(self).wf(),
        ensures
            final(self).wf(),
            old(self).remaining().len() == 0 ==> r is None && final(self).remaining()
                == old(self).remaining(),
            old(self).remaining().len() > 0 ==> r == Some(old(self).remaining()[0])
                && final(self).remaining() == old(self).remaining().skip(1),
    {
        if self.cursor == self.data.len() {
            None
        } else {
            let b = self.data[self.cursor];
            self.cursor = self.cursor + 1;
            proof {
                assert(self.remaining() =~= old(self).remaining().skip(1));
            }
            Some(b)
        }
    }

    /// Consumes and returns up to `max` bytes; fewer only at the end of the
    /// stream.
    pub fn read(&mut self, max: usize) -> (r: Vec<u8>)
        requires
            old(self).wf(),
        ensures
            final(self).wf(),
            r@ == old(self).remaining().take(min(max as int, old(self).remaining().len() as int)),
            final(self).remaining() == old(self).remaining().skip(r@.len() as int),
    {
        let avail = self.data.len() - self.cursor;
        let n = if max < avail {
            max
        } else {
            avail
        };
        let mut out: Vec<u8> = Vec::new();
        let mut i: usize = 0;
        while i < n
            invariant
                self.wf(),
                self == old(self),
                n <= self.data.len() - self.cursor,
                i <= n,
                out@ == self.remaining().take(i as int),
            decreases n - i,
        {
            let b = self.data[self.cursor + i];
            out.push(b);
            i = i + 1;
            proof {
                assert(out@ =~= self.remaining().take(i as int));
            }
        }
        self.cursor = self.cursor + n;
        proof {
            assert(out@ =~= old(self).remaining().take(
                min(max as int, old(self).remaining().len() as int),
            ));
            assert(self.remaining() =~= old(self).remaining().skip(out@.len() as int));
        }
        out
    }

    /// Copies up to `max` leading bytes without consuming them, for encoding
    /// detection.
    pub fn prefix(&self, max: usize) -> (r: Vec<u8>)
        requires
            self.wf(),
        ensures
            r@ == self.remaining().take(min(max as int, self.remaining().len() as int)),
    {
        let avail = self.data.len() - self.cursor;
        let n = if max < avail {
            max
        } else {
            avail
        };
        let mut out: Vec<u8> = Vec::new();
        let mut i: usize = 0;
        while i < n
            invariant
                self.wf(),
                n <= self.data.len() - self.cursor,
                i <= n,
                out@ == self.remaining().take(i as int),
            decreases n - i,
        {
            let b = self.data[self.cursor + i];
            out.push(b);
            i = i + 1;
            proof {
                assert(out@ =~= self.remaining().take(i as int));
            }
        }
        proof {
            assert(out@ =~= self.remaining().take(
                min(max as int, self.remaining().len() as int),
            ));
        }
        out
    }
}

} // verus!
