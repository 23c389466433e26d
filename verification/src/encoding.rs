//! Encoding detection and the transcoding facade.
//!
//! A YAML 1.2 stream is encoded as UTF-8, UTF-16 or UTF-32 and must begin
//! with either a byte order mark or an ASCII character; the encoding is
//! therefore determined by the leading bytes. The [`Transcoder`] reads any
//! such stream as UTF-8 regardless of its source encoding.

use crate::encode::Endianness;
use crate::encode::UTF16Decoder;
use crate::encode::UTF32Decoder;
use crate::encode::UTF8Encoder;
use crate::model::DecodeItem;
use crate::model::TranscodeError;
use crate::model::first_failure;
use crate::model::scalars_prefix;
use crate::model::starts_with_utf8_bom;
use crate::model::strip_bom;
use crate::model::strip_utf8_bom;
use crate::model::utf16_items;
use crate::model::utf32_items;
use crate::model::utf8_encode_all;
use crate::source::ByteSource;
use vstd::math::min;
use vstd::prelude::*;

verus! {

/// The possible text encodings of a valid YAML 1.2 stream.
#[derive(Clone, Copy, Debug, PartialEq, Eq, Structural)]
pub enum Encoding {
    UTF8,
    UTF16BE,
    UTF16LE,
    UTF32BE,
    UTF32LE,
}

/// The desired length of the prefix for encoding detection.
pub const DETECT_LEN: usize = 4;

impl Encoding {
    /// The encoding that the detection rule assigns to a stream with the
    /// given leading bytes.
    pub open spec fn spec_detect(s: Seq<u8>) -> Encoding {
        if s.len() >= 4 && ((s[0] == 0 && s[1] == 0 && s[2] == 0xFE && s[3] == 0xFF) || (s[0] == 0
            && s[1] == 0 && s[2] == 0)) {
            Encoding::UTF32BE
        } else if s.len() >= 4 && ((s[0] == 0xFF && s[1] == 0xFE && s[2] == 0 && s[3] == 0) || (
        s[1] == 0 && s[2] == 0 && s[3] == 0)) {
            Encoding::UTF32LE
        } else if s.len() >= 2 && ((s[0] == 0xFE && s[1] == 0xFF) || s[0] == 0) {
            Encoding::UTF16BE
        } else if s.len() >= 2 && ((s[0] == 0xFF && s[1] == 0xFE) || s[1] == 0) {
            Encoding::UTF16LE
        } else {
            Encoding::UTF8
        }
    }

    /// Detects the text encoding of a YAML 1.2 stream based on its leading
    /// bytes.
    ///
    /// The detection rule relies on the fact that a valid YAML stream must
    /// begin with either a Unicode byte order mark or an ASCII character;
    /// detection behavior for other inputs is best-effort. The detector
    /// looks at up to four bytes of the prefix; a prefix shorter than the
    /// stream can make the result incorrect.
    pub fn detect(prefix: &[u8]) -> (r: Encoding)
        ensures
            r == Encoding::spec_detect(prefix@),
    {
        if prefix.len() >= 4 {
            let b0 = prefix[0];
            let b1 = prefix[1];
            let b2 = prefix[2];
            let b3 = prefix[3];
            if (b0 == 0 && b1 == 0 && b2 == 0xFE && b3 == 0xFF) || (b0 == 0 && b1 == 0 && b2
                == 0) {
                return Encoding::UTF32BE;
            }
            if (b0 == 0xFF && b1 == 0xFE && b2 == 0 && b3 == 0) || (b1 == 0 && b2 == 0 && b3
                == 0) {
                return Encoding::UTF32LE;
            }
        }
        if prefix.len() >= 2 {
            let b0 = prefix[0];
            let b1 = prefix[1];
            if (b0 == 0xFE && b1 == 0xFF) || b0 == 0 {
                return Encoding::UTF16BE;
            }
            if (b0 == 0xFF && b1 == 0xFE) || b1 == 0 {
                return Encoding::UTF16LE;
            }
        }
        Encoding::UTF8
    }
}

/// The detection rule only inspects the first four bytes: it gives the same
/// answer on a stream and on its four-byte prefix.
pub proof fn lemma_detect_on_prefix(s: Seq<u8>)
    ensures
        Encoding::spec_detect(s.take(min(DETECT_LEN as int, s.len() as int)))
            == Encoding::spec_detect(s),
{
    let p = s.take(min(DETECT_LEN as int, s.len() as int));
    if s.len() >= 4 {
        assert(p.len() == 4);
        assert(p[0] == s[0] && p[1] == s[1] && p[2] == s[2] && p[3] == s[3]);
    } else {
        assert(p =~= s);
    }
}

/// The scalar values and errors that decoding a whole stream yields; empty
/// for UTF-8, which is passed through undecoded.
pub open spec fn decoded_items(s: Seq<u8>, enc: Encoding) -> Seq<DecodeItem> {
    match enc {
        Encoding::UTF8 => Seq::<DecodeItem>::empty(),
        Encoding::UTF16BE => utf16_items(s, true, 0, None),
        Encoding::UTF16LE => utf16_items(s, false, 0, None),
        Encoding::UTF32BE => utf32_items(s, true, 0),
        Encoding::UTF32LE => utf32_items(s, false, 0),
    }
}

/// The canonical UTF-8 stream that transcoding the bytes `s` from encoding
/// `enc` produces, with one leading byte order mark removed whatever the
/// source encoding: for UTF-8 the bytes themselves less a leading EF BB BF,
/// otherwise the UTF-8 encoding of the decoded scalar values before the
/// first error, less a leading U+FEFF.
pub open spec fn canonical_bytes(s: Seq<u8>, enc: Encoding) -> Seq<u8> {
    match enc {
        Encoding::UTF8 => strip_utf8_bom(s),
        _ => utf8_encode_all(strip_bom(scalars_prefix(decoded_items(s, enc)))),
    }
}

/// The error on which transcoding the bytes `s` from encoding `enc` ends,
/// if any.
pub open spec fn canonical_failure(s: Seq<u8>, enc: Encoding) -> Option<TranscodeError> {
    match enc {
        Encoding::UTF8 => None,
        _ => first_failure(decoded_items(s, enc)),
    }
}

/// Reads a YAML 1.2 stream as UTF-8 regardless of its source encoding.
///
/// A `Transcoder` detects the encoding of a YAML 1.2 stream from its leading
/// bytes. If it determines that the stream is UTF-16 or UTF-32, it
/// transparently re-encodes it to UTF-8. Otherwise, it assumes that the
/// input is UTF-8 and reads it through undecoded. Either way a single
/// initial byte order mark is stripped, so the canonical stream never
/// begins with one.
pub struct Transcoder(TranscoderKind);

enum TranscoderKind {
    Passthrough(ByteSource),
    FromUTF16(UTF8Encoder<UTF16Decoder>),
    FromUTF32(UTF8Encoder<UTF32Decoder>),
}

impl Transcoder {
    /// The transcoder's internal invariant.
    pub closed spec fn wf(&self) -> bool {
        match self.0 {
            TranscoderKind::Passthrough(s) => s.wf(),
            TranscoderKind::FromUTF16(e) => e.wf(),
            TranscoderKind::FromUTF32(e) => e.wf(),
        }
    }

    /// All canonical UTF-8 bytes the transcoder will yield before the end of
    /// the stream or its first error.
    pub closed spec fn output(&self) -> Seq<u8> {
        match self.0 {
            TranscoderKind::Passthrough(s) => s.remaining(),
            TranscoderKind::FromUTF16(e) => e.output(),
            TranscoderKind::FromUTF32(e) => e.output(),
        }
    }

    /// The decoding error on which the stream ends, if any.
    pub closed spec fn failure(&self) -> Option<TranscodeError> {
        match self.0 {
            TranscoderKind::Passthrough(_) => None,
            TranscoderKind::FromUTF16(e) => e.failure(),
            TranscoderKind::FromUTF32(e) => e.failure(),
        }
    }

    /// Creates a transcoder using a known source encoding.
    pub fn new(reader: ByteSource, from: Encoding) -> (r: Self)
        requires
            reader.wf(),
        ensures
            r.wf(),
            r.output() == canonical_bytes(reader.remaining(), from),
            r.failure() == canonical_failure(reader.remaining(), from),
    {
        match from {
            Encoding::UTF8 => {
                // skip one leading UTF-8 byte order mark, so that the
                // passthrough stream is canonical too
                let mut reader = reader;
                let head = reader.prefix(3);
                if head.len() == 3 && head[0] == 0xEF && head[1] == 0xBB && head[2] == 0xBF {
                    proof {
                        assert(starts_with_utf8_bom(reader.remaining()));
                    }
                    let _bom = reader.read(3);
                    proof {
                        assert(_bom@.len() == 3);
                    }
                } else {
                    proof {
                        assert(!starts_with_utf8_bom(reader.remaining()));
                    }
                }
                Transcoder(TranscoderKind::Passthrough(reader))
            },
            Encoding::UTF16BE => Transcoder(
                TranscoderKind::FromUTF16(
                    UTF8Encoder::new(UTF16Decoder::new(reader, Endianness::Big)),
                ),
            ),
            Encoding::UTF16LE => Transcoder(
                TranscoderKind::FromUTF16(
                    UTF8Encoder::new(UTF16Decoder::new(reader, Endianness::Little)),
                ),
            ),
            Encoding::UTF32BE => Transcoder(
                TranscoderKind::FromUTF32(
                    UTF8Encoder::new(UTF32Decoder::new(reader, Endianness::Big)),
                ),
            ),
            Encoding::UTF32LE => Transcoder(
                TranscoderKind::FromUTF32(
                    UTF8Encoder::new(UTF32Decoder::new(reader, Endianness::Little)),
                ),
            ),
        }
    }

    /// Creates a transcoder by detecting the source encoding from the first
    /// bytes of the reader.
    pub fn from_reader(reader: ByteSource) -> (r: Self)
        requires
            reader.wf(),
        ensures
            r.wf(),
            r.output() == canonical_bytes(
                reader.remaining(),
                Encoding::spec_detect(reader.remaining()),
            ),
            r.failure() == canonical_failure(
                reader.remaining(),
                Encoding::spec_detect(reader.remaining()),
            ),
    {
        let prefix = reader.prefix(DETECT_LEN);
        let encoding = Encoding::detect(prefix.as_slice());
        proof {
            lemma_detect_on_prefix(reader.remaining());
        }
        Transcoder::new(reader, encoding)
    }

    /// Fills a fresh buffer with up to `max` bytes of the canonical UTF-8
    /// stream.
    ///
    /// Fewer than `max` bytes come back only when the stream ends; a
    /// decoding error is surfaced once the bytes before it have been
    /// delivered by earlier calls.
    pub fn read(&mut self, max: usize) -> (r: Result<Vec<u8>, TranscodeError>)
        requires
            old(self).wf(),
        ensures
            final(self).wf(),
            old(self).output().len() >= max ==> (r matches Ok(bytes) && bytes@ == old(
                self,
            ).output().take(max as int) && final(self).output() == old(self).output().skip(
                max as int,
            ) && final(self).failure() == old(self).failure()),
            old(self).output().len() < max && old(self).failure() is None ==> (r matches Ok(bytes)
                && bytes@ == old(self).output() && final(self).output() == Seq::<u8>::empty()
                && final(self).failure() is None),
            old(self).output().len() < max && old(self).failure() is Some ==> r == Err::<
                Vec<u8>,
                TranscodeError,
            >(old(self).failure().unwrap()),
    {
        match &mut self.0 {
            TranscoderKind::Passthrough(s) => {
                let bytes = s.read(max);
                Ok(bytes)
            },
            TranscoderKind::FromUTF16(e) => e.read(max),
            TranscoderKind::FromUTF32(e) => e.read(max),
        }
    }
}

} // verus!
