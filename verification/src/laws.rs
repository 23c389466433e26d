//! The crate's stream-level guarantees, stated and proved once over the
//! model: round-trip fidelity of transcoding, detection of canonical
//! prefixes, and read-size independence.

use crate::encoding::Encoding;
use crate::encoding::canonical_bytes;
use crate::encoding::canonical_failure;
use crate::encoding::decoded_items;
use crate::model::DecodeItem;
use crate::model::all_unicode_scalars;
use crate::model::bom_scalar;
use crate::model::is_unicode_scalar;
use crate::model::lemma_prefix_all_scalars;
use crate::model::lemma_scalars_prefix_valid;
use crate::model::lemma_strip_bom_valid;
use crate::model::lemma_strip_utf8_bom_encoded;
use crate::model::lemma_utf8_bom_bytes;
use crate::model::lemma_utf16_items_valid;
use crate::model::lemma_utf16_roundtrip_items;
use crate::model::lemma_utf32_items_valid;
use crate::model::lemma_utf32_roundtrip_items;
use crate::model::scalars_prefix;
use crate::model::split_u16;
use crate::model::split_u32;
use crate::model::strip_bom;
use crate::model::utf16_encode_all;
use crate::model::utf16_encode_scalar;
use crate::model::utf32_encode_all;
use crate::model::utf8_encode_all;
use crate::model::utf8_encode_scalar;
use vstd::math::min;
use vstd::prelude::*;

verus! {

/// The byte stream that stores the scalar values `sc` in encoding `enc`,
/// optionally preceded by a byte order mark.
pub open spec fn encode_stream(sc: Seq<u32>, enc: Encoding, with_bom: bool) -> Seq<u8> {
    let text = if with_bom {
        seq![bom_scalar()] + sc
    } else {
        sc
    };
    match enc {
        Encoding::UTF8 => utf8_encode_all(text),
        Encoding::UTF16BE => utf16_encode_all(text, true),
        Encoding::UTF16LE => utf16_encode_all(text, false),
        Encoding::UTF32BE => utf32_encode_all(text, true),
        Encoding::UTF32LE => utf32_encode_all(text, false),
    }
}

/// Round-trip fidelity: writing any valid Unicode text in any supported
/// encoding and transcoding the bytes back gives exactly the UTF-8 encoding
/// of that text, with no decoding error.
///
/// A byte order mark may be prepended in any of the five encodings; without
/// one, a text whose own first scalar value is U+FEFF is excluded, since
/// that scalar is indistinguishable from a byte order mark and is stripped.
pub proof fn lemma_transcode_round_trip(sc: Seq<u32>, enc: Encoding, with_bom: bool)
    requires
        forall|i: int| 0 <= i < sc.len() ==> is_unicode_scalar(#[trigger] sc[i]),
        !with_bom && sc.len() > 0 ==> sc[0] != bom_scalar(),
    ensures
        canonical_bytes(encode_stream(sc, enc, with_bom), enc) == utf8_encode_all(sc),
        canonical_failure(encode_stream(sc, enc, with_bom), enc) is None,
{
    let text = if with_bom {
        seq![bom_scalar()] + sc
    } else {
        sc
    };
    assert(forall|i: int| 0 <= i < text.len() ==> is_unicode_scalar(#[trigger] text[i]));
    let bytes = encode_stream(sc, enc, with_bom);
    assert(strip_bom(text) =~= sc);
    match enc {
        Encoding::UTF8 => {
            lemma_strip_utf8_bom_encoded(text);
        },
        Encoding::UTF16BE => {
            lemma_utf16_roundtrip_items(text, true, 0);
        },
        Encoding::UTF16LE => {
            lemma_utf16_roundtrip_items(text, false, 0);
        },
        Encoding::UTF32BE => {
            lemma_utf32_roundtrip_items(text, true, 0);
        },
        Encoding::UTF32LE => {
            lemma_utf32_roundtrip_items(text, false, 0);
        },
    }
    if !(enc is UTF8) {
        assert(decoded_items(bytes, enc) == text.map_values(|v: u32| DecodeItem::Scalar(v)));
        lemma_prefix_all_scalars(text);
    }
}

/// The canonical leading byte pattern by which each encoding is detected:
/// its byte order mark, or for UTF-8 the mark's UTF-8 encoding.
pub open spec fn bom_bytes(enc: Encoding) -> Seq<u8> {
    match enc {
        Encoding::UTF8 => seq![0xEFu8, 0xBBu8, 0xBFu8],
        Encoding::UTF16BE => seq![0xFEu8, 0xFFu8],
        Encoding::UTF16LE => seq![0xFFu8, 0xFEu8],
        Encoding::UTF32BE => seq![0u8, 0u8, 0xFEu8, 0xFFu8],
        Encoding::UTF32LE => seq![0xFFu8, 0xFEu8, 0u8, 0u8],
    }
}

/// Detection is exact on its own canonical prefixes: a stream that starts
/// with an encoding's byte order mark pattern is detected as that encoding.
pub proof fn lemma_detect_bom(enc: Encoding)
    ensures
        Encoding::spec_detect(bom_bytes(enc)) == enc,
{
    let s = bom_bytes(enc);
    match enc {
        Encoding::UTF8 => {
            assert(s.len() == 3 && s[0] == 0xEF && s[1] == 0xBB && s[2] == 0xBF);
        },
        Encoding::UTF16BE => {
            assert(s.len() == 2 && s[0] == 0xFE && s[1] == 0xFF);
        },
        Encoding::UTF16LE => {
            assert(s.len() == 2 && s[0] == 0xFF && s[1] == 0xFE);
        },
        Encoding::UTF32BE => {
            assert(s.len() == 4 && s[0] == 0 && s[1] == 0 && s[2] == 0xFE && s[3] == 0xFF);
        },
        Encoding::UTF32LE => {
            assert(s.len() == 4 && s[0] == 0xFF && s[1] == 0xFE && s[2] == 0 && s[3] == 0);
        },
    }
}

/// A stream written in any supported encoding with a leading byte order
/// mark is detected as that encoding from its leading bytes.
///
/// The one ambiguous case is excluded: a UTF-16LE stream whose text begins
/// with U+0000 opens with the bytes of the UTF-32LE byte order mark and is
/// detected as UTF-32LE.
pub proof fn lemma_detect_bom_stream(sc: Seq<u32>, enc: Encoding)
    requires
        forall|i: int| 0 <= i < sc.len() ==> is_unicode_scalar(#[trigger] sc[i]),
        enc is UTF16LE ==> sc.len() == 0 || sc[0] != 0,
    ensures
        Encoding::spec_detect(encode_stream(sc, enc, true)) == enc,
{
    let text = seq![bom_scalar()] + sc;
    let bytes = encode_stream(sc, enc, true);
    assert(text[0] == bom_scalar());
    assert(text.skip(1) =~= sc);
    vstd::arithmetic::div_mod::lemma_fundamental_div_mod_converse(0xFEFF, 0x100, 0xFE, 0xFF);
    match enc {
        Encoding::UTF8 => {
            lemma_utf8_bom_bytes();
            let a = utf8_encode_scalar(bom_scalar());
            assert(bytes == a + utf8_encode_all(sc));
            assert(bytes[0] == 0xEF && bytes[1] == 0xBB);
        },
        Encoding::UTF16BE => {
            let a = utf16_encode_scalar(bom_scalar(), true);
            assert(a =~= seq![0xFEu8, 0xFFu8]);
            assert(bytes == a + utf16_encode_all(sc, true));
            assert(bytes[0] == 0xFE && bytes[1] == 0xFF);
        },
        Encoding::UTF16LE => {
            let a = utf16_encode_scalar(bom_scalar(), false);
            assert(a =~= seq![0xFFu8, 0xFEu8]);
            assert(bytes == a + utf16_encode_all(sc, false));
            assert(bytes[0] == 0xFF && bytes[1] == 0xFE);
            if bytes.len() >= 4 {
                // the third and fourth bytes come from the text's first
                // scalar value, which is not U+0000, so they are not both
                // null and the stream is not mistaken for UTF-32LE
                assert(sc.len() > 0);
                let v = sc[0];
                let rest = utf16_encode_all(sc, false);
                assert(rest == utf16_encode_scalar(v, false) + utf16_encode_all(sc.skip(1), false));
                if v < 0x10000 {
                    let u = v as u16;
                    assert(bytes[2] == (u as int % 0x100) as u8 && bytes[3] == (u as int / 0x100)
                        as u8);
                    vstd::arithmetic::div_mod::lemma_fundamental_div_mod(u as int, 0x100);
                    assert(!(bytes[2] == 0 && bytes[3] == 0));
                } else {
                    vstd::arithmetic::div_mod::lemma_fundamental_div_mod(v as int - 0x10000, 0x400);
                    let hi = (0xD800 + (v as int - 0x10000) / 0x400) as u16;
                    assert(0xD800 <= hi < 0xDC00);
                    assert(utf16_encode_scalar(v, false) == split_u16(hi, false) + split_u16(
                        (0xDC00 + (v as int - 0x10000) % 0x400) as u16,
                        false,
                    ));
                    assert(bytes[2] == (hi as int % 0x100) as u8 && bytes[3] == (hi as int / 0x100)
                        as u8);
                    vstd::arithmetic::div_mod::lemma_fundamental_div_mod(hi as int, 0x100);
                    assert(!(bytes[2] == 0 && bytes[3] == 0));
                }
            }
        },
        Encoding::UTF32BE => {
            let a = split_u32(0xFEFF, true);
            vstd::arithmetic::div_mod::lemma_fundamental_div_mod_converse(0xFEFF, 0x1000000, 0, 0xFEFF);
            vstd::arithmetic::div_mod::lemma_fundamental_div_mod_converse(0xFEFF, 0x10000, 0, 0xFEFF);
            assert(a =~= seq![0u8, 0u8, 0xFEu8, 0xFFu8]);
            assert(bytes == a + utf32_encode_all(sc, true));
            assert(bytes[0] == 0 && bytes[1] == 0 && bytes[2] == 0xFE && bytes[3] == 0xFF);
        },
        Encoding::UTF32LE => {
            let a = split_u32(0xFEFF, false);
            vstd::arithmetic::div_mod::lemma_fundamental_div_mod_converse(0xFEFF, 0x1000000, 0, 0xFEFF);
            vstd::arithmetic::div_mod::lemma_fundamental_div_mod_converse(0xFEFF, 0x10000, 0, 0xFEFF);
            assert(a =~= seq![0xFFu8, 0xFEu8, 0u8, 0u8]);
            assert(bytes == a + utf32_encode_all(sc, false));
            assert(bytes[0] == 0xFF && bytes[1] == 0xFE && bytes[2] == 0 && bytes[3] == 0);
        },
    }
}

/// Detection and transcoding compose: a stream written in any supported
/// encoding with a leading byte order mark is detected as that encoding
/// from its leading bytes, and transcoding it yields exactly the UTF-8
/// encoding of the text, with no decoding error.
pub proof fn lemma_detect_and_round_trip(sc: Seq<u32>, enc: Encoding)
    requires
        forall|i: int| 0 <= i < sc.len() ==> is_unicode_scalar(#[trigger] sc[i]),
        enc is UTF16LE ==> sc.len() == 0 || sc[0] != 0,
    ensures
        Encoding::spec_detect(encode_stream(sc, enc, true)) == enc,
        canonical_bytes(encode_stream(sc, enc, true), enc) == utf8_encode_all(sc),
        canonical_failure(encode_stream(sc, enc, true), enc) is None,
{
    lemma_detect_bom_stream(sc, enc);
    lemma_transcode_round_trip(sc, enc, true);
}

/// Whatever the source bytes, the canonical stream of a UTF-16 or UTF-32
/// input is the UTF-8 encoding of a sequence of Unicode scalar values, with
/// one leading byte order mark removed: downstream consumers always receive
/// valid UTF-8. (A UTF-8 input is passed through undecoded, less one leading
/// byte order mark, and carries its own validity or lack of it.)
pub proof fn lemma_canonical_stream_is_utf8(s: Seq<u8>, enc: Encoding)
    requires
        !(enc is UTF8),
    ensures
        all_unicode_scalars(strip_bom(scalars_prefix(decoded_items(s, enc)))),
        canonical_bytes(s, enc) == utf8_encode_all(
            strip_bom(scalars_prefix(decoded_items(s, enc))),
        ),
{
    match enc {
        Encoding::UTF8 => {
        },
        Encoding::UTF16BE => {
            lemma_utf16_items_valid(s, true, 0, None);
        },
        Encoding::UTF16LE => {
            lemma_utf16_items_valid(s, false, 0, None);
        },
        Encoding::UTF32BE => {
            lemma_utf32_items_valid(s, true, 0);
        },
        Encoding::UTF32LE => {
            lemma_utf32_items_valid(s, false, 0);
        },
    }
    lemma_scalars_prefix_valid(decoded_items(s, enc));
    lemma_strip_bom_valid(scalars_prefix(decoded_items(s, enc)));
}

/// The total number of bytes requested by a sequence of reads.
pub open spec fn total_requested(sizes: Seq<int>) -> int
    decreases sizes.len(),
{
    if sizes.len() == 0 {
        0
    } else {
        sizes[0] + total_requested(sizes.skip(1))
    }
}

/// The bytes that a sequence of reads of the given sizes yields from a
/// stream, concatenated: as the read contracts state, each read takes the
/// next requested bytes, fewer only at the end of the stream.
pub open spec fn chunked_reads(out: Seq<u8>, sizes: Seq<int>) -> Seq<u8>
    decreases sizes.len(),
{
    if sizes.len() == 0 {
        Seq::<u8>::empty()
    } else {
        let n = min(sizes[0], out.len() as int);
        out.take(n) + chunked_reads(out.skip(n), sizes.skip(1))
    }
}

proof fn lemma_total_requested_nonneg(sizes: Seq<int>)
    requires
        forall|i: int| 0 <= i < sizes.len() ==> #[trigger] sizes[i] >= 0,
    ensures
        total_requested(sizes) >= 0,
    decreases sizes.len(),
{
    if sizes.len() > 0 {
        lemma_total_requested_nonneg(sizes.skip(1));
    }
}

/// Read-size independence in full: however a sequence of reads is sized,
/// the concatenation of everything yielded is exactly the stream's prefix
/// of the total length requested — the whole stream once enough was
/// requested. No chunking of the reads drops or duplicates a byte.
pub proof fn lemma_read_size_independence(out: Seq<u8>, sizes: Seq<int>)
    requires
        forall|i: int| 0 <= i < sizes.len() ==> #[trigger] sizes[i] >= 0,
    ensures
        chunked_reads(out, sizes) == out.take(min(total_requested(sizes), out.len() as int)),
    decreases sizes.len(),
{
    if sizes.len() == 0 {
        assert(chunked_reads(out, sizes) =~= out.take(0));
    } else {
        let n = min(sizes[0], out.len() as int);
        assert forall|i: int| 0 <= i < sizes.skip(1).len() implies #[trigger] sizes.skip(1)[i]
            >= 0 by {
            assert(sizes.skip(1)[i] == sizes[i + 1]);
        }
        lemma_total_requested_nonneg(sizes.skip(1));
        lemma_read_size_independence(out.skip(n), sizes.skip(1));
        let m = min(total_requested(sizes.skip(1)), out.skip(n).len() as int);
        assert(out.take(n) + out.skip(n).take(m) =~= out.take(n + m));
        assert(n + m == min(total_requested(sizes), out.len() as int));
    }
}

/// Read-size independence: the bytes of two successive reads, which deliver
/// the stream's spans `[a, b)` and `[b, c)`, concatenate to the bytes of the
/// one larger read that delivers `[a, c)`. Reads never drop or duplicate
/// bytes, whatever the chunking.
pub proof fn lemma_reads_concat(stream: Seq<u8>, a: int, b: int, c: int)
    requires
        0 <= a <= b <= c <= stream.len(),
    ensures
        stream.subrange(a, b) + stream.subrange(b, c) == stream.subrange(a, c),
{
    assert(stream.subrange(a, b) + stream.subrange(b, c) =~= stream.subrange(a, c));
}

} // verus!
