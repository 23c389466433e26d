//! The capturing reader and the document chunker.
//!
//! The capturing reader wraps the canonical UTF-8 byte stream and buffers
//! every byte read so far, addressable by global stream position. The
//! chunker translates document boundary events reported by an external
//! grammar parser into trim and take operations on that buffer, yielding one
//! raw byte span per document. The surrounding application drives the
//! external parser and feeds its events to the chunker.

use crate::buffer::head_from;
use crate::buffer::tail_from;
use crate::encoding::Transcoder;
use crate::model::TranscodeError;
use vstd::math::min;
use vstd::prelude::*;

verus! {

/// Wraps the canonical byte stream, buffering every byte read so far.
///
/// The capture buffer holds exactly the stream bytes in
/// `[capture_start_pos, capture_start_pos + capture.len())`; it grows only
/// through reads and shrinks only through an explicit trim or take.
pub struct ChunkReader {
    source: Transcoder,
    capture: Vec<u8>,
    capture_start_pos: u64,
    history: Ghost<Seq<u8>>,
}

impl ChunkReader {
    /// The reader's internal invariant: the capture buffer is exactly the
    /// tail of the bytes read so far, starting at the capture start
    /// position.
    pub closed spec fn wf(&self) -> bool {
        &&& self.source.wf()
        &&& self.capture_start_pos as int + self.capture@.len() == self.history@.len()
        &&& self.capture@ == self.history@.skip(self.capture_start_pos as int)
    }

    /// All bytes read from the canonical stream so far, from its start.
    pub closed spec fn history(&self) -> Seq<u8> {
        self.history@
    }

    /// The whole canonical stream: the bytes read so far followed by every
    /// byte still to come before the end or the first error.
    pub closed spec fn stream(&self) -> Seq<u8> {
        self.history@ + self.source.output()
    }

    /// How many bytes have been read from the canonical stream so far.
    pub closed spec fn total_read(&self) -> int {
        self.history@.len() as int
    }

    /// The global stream position of the capture buffer's first byte.
    pub closed spec fn start_pos(&self) -> u64 {
        self.capture_start_pos
    }

    /// The bytes currently held in the capture buffer.
    pub closed spec fn captured(&self) -> Seq<u8> {
        self.capture@
    }

    /// The decoding error on which the canonical stream ends, if any.
    pub closed spec fn failure(&self) -> Option<TranscodeError> {
        self.source.failure()
    }

    /// After any sequence of reads, trims and takes, the capture start
    /// position plus the capture buffer's length equals the total number of
    /// bytes read from the canonical stream.
    pub proof fn lemma_capture_extent(&self)
        requires
            self.wf(),
        ensures
            self.start_pos() as int + self.captured().len() == self.total_read(),
            self.captured() == self.history().skip(self.start_pos() as int),
    {
    }

    /// Creates a capturing reader over a transcoded stream.
    pub fn new(source: Transcoder) -> (r: Self)
        requires
            source.wf(),
        ensures
            r.wf(),
            r.stream() == source.output(),
            r.failure() == source.failure(),
            r.total_read() == 0,
            r.start_pos() == 0,
            r.captured() == Seq::<u8>::empty(),
    {
        let r = ChunkReader {
            source,
            capture: Vec::new(),
            capture_start_pos: 0,
            history: Ghost(Seq::empty()),
        };
        proof {
            assert(r.capture@ =~= r.history@.skip(0));
            assert(r.stream() =~= r.source.output());
        }
        r
    }

    /// Reads up to `max` bytes of the canonical stream, appending exactly
    /// the returned bytes to the capture buffer.
    ///
    /// Fewer than `max` bytes come back only when the stream ends; a
    /// decoding error is surfaced once the bytes before it have been
    /// delivered, and leaves the capture buffer untouched.
    pub fn read(&mut self, max: usize) -> (r: Result<Vec<u8>, TranscodeError>)
        requires
            old(self).wf(),
        ensures
            final(self).wf(),
            final(self).start_pos() == old(self).start_pos(),
            old(self).failure() is None || old(self).stream().len() - old(self).total_read()
                >= max ==> r is Ok,
            r matches Ok(bytes) ==> {
                &&& final(self).stream() == old(self).stream()
                &&& final(self).failure() == old(self).failure()
                &&& bytes@.len() == min(
                    max as int,
                    old(self).stream().len() - old(self).total_read(),
                )
                &&& bytes@ == old(self).stream().subrange(
                    old(self).total_read(),
                    old(self).total_read() + bytes@.len(),
                )
                &&& final(self).total_read() == old(self).total_read() + bytes@.len()
                &&& final(self).captured() == old(self).captured() + bytes@
                &&& final(self).history() == old(self).history() + bytes@
            },
            r matches Err(e) ==> {
                &&& old(self).failure() == Some(e)
                &&& old(self).stream().len() - old(self).total_read() < max
                &&& final(self).total_read() == old(self).total_read()
                &&& final(self).captured() == old(self).captured()
                &&& final(self).history() == old(self).history()
            },
    {
        match self.source.read(max) {
            Ok(bytes) => {
                self.capture.extend_from_slice(bytes.as_slice());
                proof {
                    self.history@ = self.history@ + bytes@;
                    assert(self.capture@ =~= self.history@.skip(self.capture_start_pos as int));
                    assert(self.stream() =~= old(self).stream());
                    assert(bytes@ =~= old(self).stream().subrange(
                        old(self).total_read(),
                        old(self).total_read() + bytes@.len(),
                    ));
                }
                Ok(bytes)
            },
            Err(e) => Err(e),
        }
    }

    /// Discards the capture buffer's bytes before global position `pos` and
    /// makes `pos` the new capture start position.
    ///
    /// `pos` must lie between the current capture start position and the
    /// total bytes read so far; a caller that violates this has lost track
    /// of its positions, which is a logic error, not a recoverable failure.
    pub fn trim_to_start(&mut self, pos: u64)
        requires
            old(self).wf(),
            old(self).start_pos() <= pos,
            pos as int <= old(self).total_read(),
        ensures
            final(self).wf(),
            final(self).start_pos() == pos,
            final(self).history() == old(self).history(),
            final(self).stream() == old(self).stream(),
            final(self).failure() == old(self).failure(),
            final(self).total_read() == old(self).total_read(),
            final(self).captured() == old(self).history().skip(pos as int),
    {
        proof {
            assert(pos as int - self.capture_start_pos as int <= self.capture@.len());
            assert(self.capture.len() == self.capture@.len());
        }
        let excess_start_len = (pos - self.capture_start_pos) as usize;
        let rest = tail_from(&self.capture, excess_start_len);
        self.capture = rest;
        self.capture_start_pos = pos;
        proof {
            assert(self.capture@ =~= self.history@.skip(pos as int));
        }
    }

    /// Splits the capture buffer at global position `pos`: returns the bytes
    /// in `[capture_start_pos, pos)`, retains the rest, and makes `pos` the
    /// new capture start position.
    ///
    /// `pos` must lie between the current capture start position and the
    /// total bytes read so far; a caller that violates this has lost track
    /// of its positions, which is a logic error, not a recoverable failure.
    pub fn take_to_end(&mut self, pos: u64) -> (r: Vec<u8>)
        requires
            old(self).wf(),
            old(self).start_pos() <= pos,
            pos as int <= old(self).total_read(),
        ensures
            final(self).wf(),
            r@ == old(self).history().subrange(old(self).start_pos() as int, pos as int),
            final(self).start_pos() == pos,
            final(self).history() == old(self).history(),
            final(self).stream() == old(self).stream(),
            final(self).failure() == old(self).failure(),
            final(self).total_read() == old(self).total_read(),
            final(self).captured() == old(self).history().skip(pos as int),
    {
        proof {
            assert(pos as int - self.capture_start_pos as int <= self.capture@.len());
            assert(self.capture.len() == self.capture@.len());
        }
        let take_len = (pos - self.capture_start_pos) as usize;
        let front = head_from(&self.capture, take_len);
        let rest = tail_from(&self.capture, take_len);
        self.capture = rest;
        self.capture_start_pos = pos;
        proof {
            assert(self.capture@ =~= self.history@.skip(pos as int));
            assert(front@ =~= old(self).history().subrange(
                old(self).start_pos() as int,
                pos as int,
            ));
        }
        front
    }
}

/// The kinds of parser event the chunker reacts to.
#[derive(Clone, Copy, Debug, PartialEq, Eq, Structural)]
pub enum EventKind {
    /// The event source reached the end of the stream.
    StreamEnd,
    /// A document begins at the event's offset.
    DocumentStart,
    /// A document ends at the event's offset.
    DocumentEnd,
    /// Any other event; the chunker ignores it.
    Other,
}

/// The chunker's reaction to one parser event.
pub enum ChunkStep {
    /// Nothing to report; pull the next event.
    Continue,
    /// One document's exact bytes in the canonical stream.
    Document(Vec<u8>),
    /// The stream ended; there are no more documents.
    Finished,
}

/// Splits the canonical UTF-8 stream into one raw byte span per document.
///
/// The chunker owns the capturing reader. The surrounding application feeds
/// the external parser bytes obtained from [`Chunker::read`] — the chunker
/// must be the only reader of the stream — and hands every parser event to
/// [`Chunker::handle_event`], which turns document boundaries into byte
/// spans.
pub struct Chunker {
    reader: ChunkReader,
}

impl Chunker {
    /// The chunker's internal invariant.
    pub closed spec fn wf(&self) -> bool {
        self.reader.wf()
    }

    /// The whole canonical stream.
    pub closed spec fn stream(&self) -> Seq<u8> {
        self.reader.stream()
    }

    /// How many bytes of the canonical stream the parser has been fed.
    pub closed spec fn total_read(&self) -> int {
        self.reader.total_read()
    }

    /// The global stream position where the next document span begins.
    pub closed spec fn start_pos(&self) -> u64 {
        self.reader.start_pos()
    }

    /// The decoding error on which the canonical stream ends, if any.
    pub closed spec fn failure(&self) -> Option<TranscodeError> {
        self.reader.failure()
    }

    /// Creates a chunker over a transcoded stream.
    pub fn new(reader: Transcoder) -> (r: Self)
        requires
            reader.wf(),
        ensures
            r.wf(),
            r.stream() == reader.output(),
            r.failure() == reader.failure(),
            r.total_read() == 0,
            r.start_pos() == 0,
    {
        Chunker { reader: ChunkReader::new(reader) }
    }

    /// Supplies up to `max` bytes of the canonical stream to the external
    /// parser, capturing them for later span extraction.
    pub fn read(&mut self, max: usize) -> (r: Result<Vec<u8>, TranscodeError>)
        requires
            old(self).wf(),
        ensures
            final(self).wf(),
            final(self).start_pos() == old(self).start_pos(),
            old(self).failure() is None || old(self).stream().len() - old(self).total_read()
                >= max ==> r is Ok,
            r matches Ok(bytes) ==> {
                &&& final(self).stream() == old(self).stream()
                &&& final(self).failure() == old(self).failure()
                &&& bytes@.len() == min(
                    max as int,
                    old(self).stream().len() - old(self).total_read(),
                )
                &&& bytes@ == old(self).stream().subrange(
                    old(self).total_read(),
                    old(self).total_read() + bytes@.len(),
                )
                &&& final(self).total_read() == old(self).total_read() + bytes@.len()
            },
            r matches Err(e) ==> {
                &&& old(self).failure() == Some(e)
                &&& final(self).total_read() == old(self).total_read()
                &&& final(self).stream().subrange(0, final(self).total_read()) == old(self).stream().subrange(0, old(self).total_read())
            },
    {
        let ghost h0 = self.reader.history();
        let r = self.reader.read(max);
        proof {
            if r is Err {
                assert(self.reader.history() == h0);
                assert(self.stream().subrange(0, self.total_read()) =~= h0);
                assert(old(self).stream().subrange(0, old(self).total_read()) =~= h0);
            }
        }
        r
    }

    /// Reacts to one event of the external parser.
    ///
    /// A stream-end event finishes the document sequence. A document-start
    /// event at offset `p` discards the captured bytes before `p` (directives,
    /// separators and other inter-document material). A document-end event at
    /// offset `p` yields the bytes from the last document start up to `p` as
    /// one document span. Every other event is ignored.
    ///
    /// Boundary offsets must lie between the current span start and the
    /// bytes read so far; the external parser reports offsets into the
    /// stream it was fed, so others are a logic error.
    pub fn handle_event(&mut self, kind: EventKind, offset: u64) -> (r: ChunkStep)
        requires
            old(self).wf(),
            kind == EventKind::DocumentStart || kind == EventKind::DocumentEnd ==> old(self).start_pos() <= offset && offset as int <= old(self).total_read(),
        ensures
            final(self).wf(),
            final(self).stream() == old(self).stream(),
            final(self).total_read() == old(self).total_read(),
            final(self).failure() == old(self).failure(),
            kind == EventKind::StreamEnd ==> (r is Finished && *final(self) == *old(self)),
            kind == EventKind::Other ==> (r is Continue && *final(self) == *old(self)),
            kind == EventKind::DocumentStart ==> (r is Continue && final(self).start_pos()
                == offset),
            kind == EventKind::DocumentEnd ==> (r matches ChunkStep::Document(d) && d@ == old(self).stream().subrange(old(self).start_pos() as int, offset as int) && final(self).start_pos() == offset),
    {
        match kind {
            EventKind::StreamEnd => ChunkStep::Finished,
            EventKind::DocumentStart => {
                self.reader.trim_to_start(offset);
                ChunkStep::Continue
            },
            EventKind::DocumentEnd => {
                let chunk = self.reader.take_to_end(offset);
                proof {
                    assert(chunk@ =~= old(self).stream().subrange(
                        old(self).start_pos() as int,
                        offset as int,
                    ));
                }
                ChunkStep::Document(chunk)
            },
            EventKind::Other => ChunkStep::Continue,
        }
    }
}

} // verus!
