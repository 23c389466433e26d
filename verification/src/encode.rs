//! Streaming decoders for UTF-16 and UTF-32, and the streaming UTF-8
//! re-encoder that consumes them.
//!
//! A decoder turns a byte source into a forward-only sequence of Unicode
//! scalar values or positioned errors; the re-encoder turns that sequence
//! into UTF-8 bytes on demand, stripping one leading byte order mark and
//! carrying over the bytes of a character that did not fully fit into a
//! read.

use crate::buffer::ArrayBuffer;
use crate::buffer::push_some;
use crate::buffer::tail_from;
use crate::model::DecodeItem;
use crate::model::TranscodeError;
use crate::model::bom_scalar;
use crate::model::combine_surrogates;
use crate::model::first_failure;
use crate::model::is_unicode_scalar;
use crate::model::lemma_items_empty;
use crate::model::lemma_items_step_failure;
use crate::model::lemma_items_step_scalar;
use crate::model::merge_u16;
use crate::model::merge_u32;
use crate::model::scalars_prefix;
use crate::model::strip_bom;
use crate::model::utf16_is_trail;
use crate::model::utf16_items;
use crate::model::utf32_items;
use crate::model::utf8_encode_all;
use crate::model::utf8_encode_scalar;
use crate::source::ByteSource;
use vstd::prelude::*;

verus! {

/// Relies on char::from_u32 from the standard library: it returns `Some`
/// exactly for Unicode scalar values (code points outside the surrogate
/// range and at most U+10FFFF), and the returned character has the given
/// code point.
pub assume_specification[ char::from_u32 ](v: u32) -> (r: Option<char>)
    ensures
        r is Some <==> is_unicode_scalar(v),
        r matches Some(c) ==> c as u32 == v,
;

/// The byte order of UTF-16 or UTF-32 text.
#[derive(Clone, Copy, Debug, PartialEq, Eq, Structural)]
pub enum Endianness {
    Big,
    Little,
}

impl Endianness {
    /// The 16-bit code unit stored in two bytes in this byte order.
    pub fn decode_u16(&self, buf: [u8; 2]) -> (r: u16)
        ensures
            r == merge_u16(buf[0], buf[1], *self is Big),
    {
        match self {
            Endianness::Big => (buf[0] as u16) * 0x100 + (buf[1] as u16),
            Endianness::Little => (buf[1] as u16) * 0x100 + (buf[0] as u16),
        }
    }

    /// The 32-bit code unit stored in four bytes in this byte order.
    pub fn decode_u32(&self, buf: [u8; 4]) -> (r: u32)
        ensures
            r == merge_u32(buf[0], buf[1], buf[2], buf[3], *self is Big),
    {
        match self {
            Endianness::Big => (buf[0] as u32) * 0x1000000 + (buf[1] as u32) * 0x10000 + (
            buf[2] as u32) * 0x100 + (buf[3] as u32),
            Endianness::Little => (buf[3] as u32) * 0x1000000 + (buf[2] as u32) * 0x10000 + (
            buf[1] as u32) * 0x100 + (buf[0] as u32),
        }
    }
}

/// A source of Unicode scalar values: a decoder that yields one scalar value
/// or positioned error per pull, `None` at the end of the stream.
pub trait ScalarSource: Sized {
    /// The source's internal invariant.
    spec fn wf(&self) -> bool;

    /// Everything the source will ever yield, in order.
    spec fn items(&self) -> Seq<DecodeItem>;

    /// Pulls the next scalar value or error.
    fn next(&mut self) -> (r: Option<Result<char, TranscodeError>>)
        requires
            old(self).wf(),
        ensures
            final(self).wf(),
            old(self).items().len() == 0 ==> r is None && final(self).items() == old(self).items(),
            old(self).items().len() > 0 ==> final(self).items() == old(self).items().skip(1)
                && (match old(self).items()[0] {
                DecodeItem::Scalar(v) => r matches Some(Ok(c)) && c as u32 == v,
                DecodeItem::Failure(e) => r == Some(Err::<char, TranscodeError>(e)),
            }),
    ;
}

/// The longest UTF-8 encoding of any scalar value, in bytes.
pub const MAX_UTF8_ENCODED_LEN: usize = 4;

/// The UTF-8 encoding of one character, at most four bytes.
pub fn encode_utf8_char(c: char) -> (r: Vec<u8>)
    ensures
        r@ == utf8_encode_scalar(c as u32),
        1 <= r@.len() <= MAX_UTF8_ENCODED_LEN,
{
    let v = c as u32;
    let mut out: Vec<u8> = Vec::new();
    if v < 0x80 {
        out.push(v as u8);
    } else if v < 0x800 {
        out.push((0xC0 + v / 0x40) as u8);
        out.push((0x80 + v % 0x40) as u8);
    } else if v < 0x10000 {
        out.push((0xE0 + v / 0x1000) as u8);
        out.push((0x80 + (v / 0x40) % 0x40) as u8);
        out.push((0x80 + v % 0x40) as u8);
    } else {
        out.push((0xF0 + v / 0x40000) as u8);
        out.push((0x80 + (v / 0x1000) % 0x40) as u8);
        out.push((0x80 + (v / 0x40) % 0x40) as u8);
        out.push((0x80 + v % 0x40) as u8);
    }
    proof {
        assert(out@ =~= utf8_encode_scalar(v));
    }
    out
}

/// A streaming UTF-8 encoder that pairs with [`UTF16Decoder`] or
/// [`UTF32Decoder`].
///
/// If the source stream starts with a byte order mark, the encoder skips it
/// and reading begins with the actual text content.
pub struct UTF8Encoder<S: ScalarSource> {
    source: S,
    remainder: ArrayBuffer<MAX_UTF8_ENCODED_LEN>,
    started: bool,
}

impl<S: ScalarSource> UTF8Encoder<S> {
    /// The encoder's internal invariant.
    pub closed spec fn wf(&self) -> bool {
        self.source.wf() && self.remainder.wf()
    }

    /// The scalar values still to be encoded: the source's scalar values
    /// before its first error, less a leading byte order mark not yet looked
    /// for.
    pub closed spec fn scalars(&self) -> Seq<u32> {
        if self.started {
            scalars_prefix(self.source.items())
        } else {
            strip_bom(scalars_prefix(self.source.items()))
        }
    }

    /// The source's first error, if any, reached once the scalar values
    /// before it are drained.
    pub closed spec fn failure(&self) -> Option<TranscodeError> {
        first_failure(self.source.items())
    }

    /// All UTF-8 bytes the encoder will yield before the end of the stream
    /// or its first error.
    pub closed spec fn output(&self) -> Seq<u8> {
        self.remainder.unread() + utf8_encode_all(self.scalars())
    }

    /// Creates an encoder that drains `source`.
    pub fn new(source: S) -> (r: Self)
        requires
            source.wf(),
        ensures
            r.wf(),
            r.output() == utf8_encode_all(strip_bom(scalars_prefix(source.items()))),
            r.failure() == first_failure(source.items()),
    {
        let r = UTF8Encoder { source, remainder: ArrayBuffer::new(), started: false };
        proof {
            assert(r.output() =~= utf8_encode_all(strip_bom(scalars_prefix(r.source.items()))));
        }
        r
    }

    /// Pulls the next character, skipping one leading byte order mark on the
    /// first pull.
    fn next_char(&mut self) -> (r: Option<Result<char, TranscodeError>>)
        requires
            old(self).wf(),
        ensures
            final(self).wf(),
            final(self).remainder == old(self).remainder,
            old(self).scalars().len() > 0 ==> (r matches Some(Ok(c)) && c as u32 == old(self).scalars()[0] && final(self).scalars() == old(self).scalars().skip(1)
                && final(self).failure() == old(self).failure()),
            old(self).scalars().len() == 0 && old(self).failure() is None ==> r is None && final(self).scalars().len() == 0 && final(self).failure() is None,
            old(self).scalars().len() == 0 && old(self).failure() is Some ==> r == Some(
                Err::<char, TranscodeError>(old(self).failure().unwrap()),
            ),
    {
        let ghost items0 = self.source.items();
        if self.started {
            let r = self.source.next();
            proof {
                if items0.len() == 0 {
                    lemma_items_empty(items0);
                } else {
                    match items0[0] {
                        DecodeItem::Scalar(v) => {
                            lemma_items_step_scalar(items0, v);
                        },
                        DecodeItem::Failure(e) => {
                            lemma_items_step_failure(items0, e);
                        },
                    }
                }
            }
            r
        } else {
            self.started = true;
            let first = self.source.next();
            match first {
                Some(Ok(c)) => {
                    if c as u32 == 0xFEFF {
                        // the stream starts with a byte order mark: skip it
                        proof {
                            assert(items0[0] == DecodeItem::Scalar(bom_scalar()));
                            lemma_items_step_scalar(items0, bom_scalar());
                            assert(old(self).scalars() =~= scalars_prefix(items0.skip(1)));
                        }
                        let ghost items1 = self.source.items();
                        let r = self.source.next();
                        proof {
                            if items1.len() == 0 {
                                lemma_items_empty(items1);
                            } else {
                                match items1[0] {
                                    DecodeItem::Scalar(v) => {
                                        lemma_items_step_scalar(items1, v);
                                    },
                                    DecodeItem::Failure(e) => {
                                        lemma_items_step_failure(items1, e);
                                    },
                                }
                            }
                        }
                        r
                    } else {
                        proof {
                            let v = c as u32;
                            assert(items0[0] == DecodeItem::Scalar(v));
                            lemma_items_step_scalar(items0, v);
                            assert(old(self).scalars() =~= scalars_prefix(items0));
                        }
                        Some(Ok(c))
                    }
                },
                other => {
                    proof {
                        if items0.len() == 0 {
                            lemma_items_empty(items0);
                        } else {
                            match items0[0] {
                                DecodeItem::Scalar(v) => {
                                    lemma_items_step_scalar(items0, v);
                                },
                                DecodeItem::Failure(e) => {
                                    lemma_items_step_failure(items0, e);
                                },
                            }
                        }
                    }
                    other
                },
            }
        }
    }

    /// Fills a fresh buffer with up to `max` bytes of UTF-8 output.
    ///
    /// Fewer than `max` bytes come back only when the stream ends; an error
    /// of the underlying decoder is surfaced once the bytes before it have
    /// been delivered by earlier calls. A zero-length request is valid,
    /// returns no bytes and consumes no input.
    pub fn read(&mut self, max: usize) -> (r: Result<Vec<u8>, TranscodeError>)
        requires
            old(self).wf(),
        ensures
            final(self).wf(),
            old(self).output().len() >= max ==> (r matches Ok(bytes) && bytes@ == old(self).output().take(max as int) && final(self).output() == old(self).output().skip(
                max as int,
            ) && final(self).failure() == old(self).failure()),
            old(self).output().len() < max && old(self).failure() is None ==> (r matches Ok(bytes)
                && bytes@ == old(self).output() && final(self).output() == Seq::<u8>::empty()
                && final(self).failure() is None),
            old(self).output().len() < max && old(self).failure() is Some ==> r == Err::<
                Vec<u8>,
                TranscodeError,
            >(old(self).failure().unwrap()),
    {
        // first, emit the remainder of any character that a previous read
        // could not fully emit
        let mut out = self.remainder.read(max);
        if !self.remainder.is_empty() {
            proof {
                assert(out@ =~= old(self).output().take(max as int));
                assert(self.output() =~= old(self).output().skip(max as int));
            }
            return Ok(out);
        }
        proof {
            assert(out@ + self.output() =~= old(self).output());
        }
        // then encode characters until the request is filled, carrying over
        // the bytes of a final character that does not fully fit
        while out.len() < max
            invariant
                self.wf(),
                out@.len() <= max,
                out@ + self.output() == old(self).output(),
                self.failure() == old(self).failure(),
                self.remainder.unread().len() > 0 ==> out@.len() == max,
            decreases max - out.len(),
        {
            let ghost scalars0 = self.scalars();
            let c = match self.next_char() {
                None => {
                    proof {
                        assert(self.output() =~= Seq::<u8>::empty());
                        assert(out@ =~= old(self).output());
                    }
                    return Ok(out);
                },
                Some(Err(e)) => {
                    return Err(e);
                },
                Some(Ok(c)) => c,
            };
            let bytes = encode_utf8_char(c);
            proof {
                assert(utf8_encode_all(scalars0) =~= utf8_encode_scalar(scalars0[0])
                    + utf8_encode_all(scalars0.skip(1)));
            }
            let space = max - out.len();
            if bytes.len() <= space {
                out.extend_from_slice(bytes.as_slice());
            } else {
                push_some(&mut out, &bytes, space);
                let rest = tail_from(&bytes, space);
                self.remainder.set(rest);
            }
            proof {
                assert(out@ + self.output() =~= old(self).output());
            }
        }
        proof {
            assert(out@ =~= old(self).output().take(max as int));
            assert(self.output() =~= old(self).output().skip(max as int));
        }
        Ok(out)
    }
}

/// A streaming UTF-16 decoder.
pub struct UTF16Decoder {
    source: ByteSource,
    pos: u64,
    endianness: Endianness,
    buf: Option<u16>,
}

impl UTF16Decoder {
    /// Creates a decoder over the raw bytes of `source`.
    pub fn new(source: ByteSource, endianness: Endianness) -> (r: Self)
        requires
            source.wf(),
        ensures
            r.wf(),
            r.items() == utf16_items(source.remaining(), endianness is Big, 0, None),
    {
        proof {
            source.lemma_remaining_bounded();
        }
        UTF16Decoder { source, pos: 0, endianness, buf: None }
    }

    /// Reads one code unit, `Ok(None)` at the end of the stream, or an error
    /// when the stream ends in the middle of a unit.
    fn next_u16(&mut self) -> (r: Result<Option<u16>, TranscodeError>)
        requires
            old(self).wf(),
        ensures
            final(self).wf(),
            final(self).endianness == old(self).endianness,
            final(self).buf == old(self).buf,
            old(self).source.remaining().len() == 0 ==> r == Ok::<Option<u16>, TranscodeError>(
                None,
            ) && final(self).source.remaining() == old(self).source.remaining() && final(self).pos
                == old(self).pos,
            old(self).source.remaining().len() == 1 ==> r == Err::<Option<u16>, TranscodeError>(
                TranscodeError::UnexpectedEnd,
            ) && final(self).source.remaining().len() == 0,
            old(self).source.remaining().len() >= 2 ==> r == Ok::<Option<u16>, TranscodeError>(
                Some(
                    merge_u16(
                        old(self).source.remaining()[0],
                        old(self).source.remaining()[1],
                        old(self).endianness is Big,
                    ),
                ),
            ) && final(self).source.remaining() == old(self).source.remaining().skip(2)
                && final(self).pos == old(self).pos + 2,
    {
        let b0 = match self.source.next_byte() {
            None => {
                return Ok(None);
            },
            Some(b) => b,
        };
        let b1 = match self.source.next_byte() {
            None => {
                return Err(TranscodeError::UnexpectedEnd);
            },
            Some(b) => b,
        };
        self.pos = self.pos + 2;
        proof {
            assert(final(self).source.remaining() =~= old(self).source.remaining().skip(2));
        }
        Ok(Some(self.endianness.decode_u16([b0, b1])))
    }

    /// The decoder's internal invariant: the byte counter cannot overflow,
    /// and a retained code unit is never a trailing surrogate.
    pub closed spec fn wf(&self) -> bool {
        &&& self.source.wf()
        &&& self.pos as int + self.source.remaining().len() <= u64::MAX
        &&& (self.buf matches Some(u) ==> !utf16_is_trail(u))
    }

    /// Everything the decoder will ever yield, in order.
    pub closed spec fn items(&self) -> Seq<DecodeItem> {
        utf16_items(self.source.remaining(), self.endianness is Big, self.pos as int, self.buf)
    }
}

impl ScalarSource for UTF16Decoder {
    open spec fn wf(&self) -> bool {
        UTF16Decoder::wf(self)
    }

    open spec fn items(&self) -> Seq<DecodeItem> {
        UTF16Decoder::items(self)
    }

    fn next(&mut self) -> (r: Option<Result<char, TranscodeError>>) {
        let ghost items0 = UTF16Decoder::items(old(self));
        let pos0 = self.pos;
        let lead = match self.buf {
            Some(u) => {
                self.buf = None;
                u
            },
            None => {
                match self.next_u16() {
                    Ok(Some(u)) => u,
                    Ok(None) => {
                        return None;
                    },
                    Err(e) => {
                        return Some(Err(e));
                    },
                }
            },
        };
        if !(0xD800 <= lead && lead <= 0xDFFF) {
            // a non-surrogate code unit directly encodes a scalar value
            proof {
                assert(items0 == seq![DecodeItem::Scalar(lead as u32)] + UTF16Decoder::items(
                    self,
                ));
                assert(items0.skip(1) =~= UTF16Decoder::items(self));
            }
            let c = char::from_u32(lead as u32).unwrap();
            return Some(Ok(c));
        }
        if lead >= 0xDC00 {
            // a trailing surrogate with no leading surrogate
            proof {
                assert(items0 == seq![
                    DecodeItem::Failure(
                        TranscodeError::InvalidUtf16 { unit: lead, pos: pos0 as u64 },
                    ),
                ] + UTF16Decoder::items(self));
                assert(items0.skip(1) =~= UTF16Decoder::items(self));
            }
            return Some(Err(TranscodeError::InvalidUtf16 { unit: lead, pos: pos0 }));
        }
        // a leading surrogate: the next unit decides
        proof {
            // whether the lead came from the retained unit or from the
            // source, the stream now behaves as if the lead were retained
            assert(items0 == utf16_items(
                self.source.remaining(),
                self.endianness is Big,
                self.pos as int,
                Some(lead),
            ));
        }
        let ghost items_pend = utf16_items(
            self.source.remaining(),
            self.endianness is Big,
            self.pos as int,
            Some(lead),
        );
        let trail_pos = self.pos;
        let trail = match self.next_u16() {
            Ok(Some(u)) => u,
            Ok(None) => {
                proof {
                    assert(items0 =~= seq![DecodeItem::Failure(TranscodeError::UnexpectedEnd)]);
                    assert(items0.skip(1) =~= UTF16Decoder::items(self));
                }
                return Some(Err(TranscodeError::UnexpectedEnd));
            },
            Err(e) => {
                proof {
                    assert(items0 =~= seq![DecodeItem::Failure(TranscodeError::UnexpectedEnd)]);
                    assert(items0.skip(1) =~= UTF16Decoder::items(self));
                }
                return Some(Err(e));
            },
        };
        if !(0xDC00 <= trail && trail <= 0xDFFF) {
            // not the required trailing surrogate: retain it as the next
            // leading unit and report the error
            self.buf = Some(trail);
            proof {
                assert(items0 == seq![
                    DecodeItem::Failure(
                        TranscodeError::InvalidUtf16 { unit: trail, pos: trail_pos as u64 },
                    ),
                ] + UTF16Decoder::items(self));
                assert(items0.skip(1) =~= UTF16Decoder::items(self));
            }
            return Some(Err(TranscodeError::InvalidUtf16 { unit: trail, pos: trail_pos }));
        }
        // a valid surrogate pair
        let v: u32 = 0x10000 + ((lead - 0xD800) as u32) * 0x400 + ((trail - 0xDC00) as u32);
        proof {
            assert(v == combine_surrogates(lead, trail));
            assert(is_unicode_scalar(v));
            assert(items0 == seq![DecodeItem::Scalar(v)] + UTF16Decoder::items(self));
            assert(items0.skip(1) =~= UTF16Decoder::items(self));
        }
        let c = char::from_u32(v).unwrap();
        Some(Ok(c))
    }
}

/// A streaming UTF-32 decoder.
pub struct UTF32Decoder {
    source: ByteSource,
    pos: u64,
    endianness: Endianness,
}

impl UTF32Decoder {
    /// Creates a decoder over the raw bytes of `source`.
    pub fn new(source: ByteSource, endianness: Endianness) -> (r: Self)
        requires
            source.wf(),
        ensures
            r.wf(),
            r.items() == utf32_items(source.remaining(), endianness is Big, 0),
    {
        proof {
            source.lemma_remaining_bounded();
        }
        UTF32Decoder { source, pos: 0, endianness }
    }

    /// The decoder's internal invariant: the byte counter cannot overflow.
    pub closed spec fn wf(&self) -> bool {
        self.source.wf() && self.pos as int + self.source.remaining().len() <= u64::MAX
    }

    /// Everything the decoder will ever yield, in order.
    pub closed spec fn items(&self) -> Seq<DecodeItem> {
        utf32_items(self.source.remaining(), self.endianness is Big, self.pos as int)
    }
}

impl ScalarSource for UTF32Decoder {
    open spec fn wf(&self) -> bool {
        UTF32Decoder::wf(self)
    }

    open spec fn items(&self) -> Seq<DecodeItem> {
        UTF32Decoder::items(self)
    }

    fn next(&mut self) -> (r: Option<Result<char, TranscodeError>>) {
        let ghost items0 = UTF32Decoder::items(old(self));
        let pos0 = self.pos;
        let b0 = match self.source.next_byte() {
            None => {
                return None;
            },
            Some(b) => b,
        };
        let b1 = match self.source.next_byte() {
            None => {
                return Some(Err(TranscodeError::UnexpectedEnd));
            },
            Some(b) => b,
        };
        let b2 = match self.source.next_byte() {
            None => {
                return Some(Err(TranscodeError::UnexpectedEnd));
            },
            Some(b) => b,
        };
        let b3 = match self.source.next_byte() {
            None => {
                return Some(Err(TranscodeError::UnexpectedEnd));
            },
            Some(b) => b,
        };
        self.pos = self.pos + 4;
        proof {
            assert(self.source.remaining() =~= old(self).source.remaining().skip(4));
        }
        let unit = self.endianness.decode_u32([b0, b1, b2, b3]);
        let r = match char::from_u32(unit) {
            Some(c) => Some(Ok(c)),
            None => Some(Err(TranscodeError::InvalidUtf32 { unit, pos: pos0 })),
        };
        proof {
            if is_unicode_scalar(unit) {
                assert(items0 == seq![DecodeItem::Scalar(unit)] + UTF32Decoder::items(self));
            } else {
                assert(items0 == seq![
                    DecodeItem::Failure(
                        TranscodeError::InvalidUtf32 { unit, pos: pos0 as u64 },
                    ),
                ] + UTF32Decoder::items(self));
            }
            assert(items0.skip(1) =~= UTF32Decoder::items(self));
        }
        r
    }
}

} // verus!
