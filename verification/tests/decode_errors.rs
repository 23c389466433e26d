use yamlsplit::chunk::Chunker;
use yamlsplit::encode::Endianness;
use yamlsplit::encode::ScalarSource;
use yamlsplit::encode::UTF16Decoder;
use yamlsplit::encode::UTF32Decoder;
use yamlsplit::encoding::Transcoder;
use yamlsplit::model::TranscodeError;
use yamlsplit::source::ByteSource;

#[test]
fn utf16_unpaired_low_surrogate_is_positioned() {
    // 'A', then a lone trailing surrogate at byte offset 2
    let source = ByteSource::new(vec![0x00, 0x41, 0xDC, 0x00]);
    let mut d = UTF16Decoder::new(source, Endianness::Big);
    assert_eq!(d.next(), Some(Ok('A')));
    assert_eq!(d.next(), Some(Err(TranscodeError::InvalidUtf16 { unit: 0xDC00, pos: 2 })));
    assert_eq!(d.next(), None);
}

#[test]
fn utf16_invalid_trail_resynchronizes() {
    // a leading surrogate followed by 'A': the error names the offending
    // unit, and decoding resumes from that unit rather than skipping it
    let source = ByteSource::new(vec![0xD8, 0x00, 0x00, 0x41]);
    let mut d = UTF16Decoder::new(source, Endianness::Big);
    assert_eq!(d.next(), Some(Err(TranscodeError::InvalidUtf16 { unit: 0x0041, pos: 2 })));
    assert_eq!(d.next(), Some(Ok('A')));
    assert_eq!(d.next(), None);
}

#[test]
fn utf16_lead_at_end_of_stream() {
    let source = ByteSource::new(vec![0xD8, 0x00]);
    let mut d = UTF16Decoder::new(source, Endianness::Big);
    assert_eq!(d.next(), Some(Err(TranscodeError::UnexpectedEnd)));
}

#[test]
fn utf16_odd_length_stream() {
    let source = ByteSource::new(vec![0x00]);
    let mut d = UTF16Decoder::new(source, Endianness::Big);
    assert_eq!(d.next(), Some(Err(TranscodeError::UnexpectedEnd)));
    assert_eq!(d.next(), None);
}

#[test]
fn utf16_little_endian_surrogate_pair() {
    // U+1F600 as a little-endian surrogate pair: D83D DE00
    let source = ByteSource::new(vec![0x3D, 0xD8, 0x00, 0xDE]);
    let mut d = UTF16Decoder::new(source, Endianness::Little);
    assert_eq!(d.next(), Some(Ok('\u{1F600}')));
    assert_eq!(d.next(), None);
}

#[test]
fn utf32_surrogate_code_point_is_rejected() {
    let source = ByteSource::new(vec![0x00, 0x00, 0xD8, 0x00]);
    let mut d = UTF32Decoder::new(source, Endianness::Big);
    assert_eq!(d.next(), Some(Err(TranscodeError::InvalidUtf32 { unit: 0xD800, pos: 0 })));
    assert_eq!(d.next(), None);
}

#[test]
fn utf32_value_above_unicode_range_is_rejected() {
    // 0x00110000, one past the last code point, at byte offset 4
    let source = ByteSource::new(vec![0x00, 0x00, 0x00, 0x41, 0x00, 0x11, 0x00, 0x00]);
    let mut d = UTF32Decoder::new(source, Endianness::Big);
    assert_eq!(d.next(), Some(Ok('A')));
    assert_eq!(d.next(), Some(Err(TranscodeError::InvalidUtf32 { unit: 0x110000, pos: 4 })));
}

#[test]
fn utf32_truncated_unit() {
    let source = ByteSource::new(vec![0x00, 0x00]);
    let mut d = UTF32Decoder::new(source, Endianness::Big);
    assert_eq!(d.next(), Some(Err(TranscodeError::UnexpectedEnd)));
    assert_eq!(d.next(), None);
}

#[test]
fn utf32_little_endian_value() {
    let source = ByteSource::new(vec![0xAC, 0x20, 0x00, 0x00]);
    let mut d = UTF32Decoder::new(source, Endianness::Little);
    assert_eq!(d.next(), Some(Ok('\u{20AC}')));
}

#[test]
fn transcoder_surfaces_decoding_error() {
    // byte order mark, then a lone leading surrogate cut off by the end of
    // the stream
    let mut t = Transcoder::from_reader(ByteSource::new(vec![0xFE, 0xFF, 0xD8, 0x00]));
    assert_eq!(t.read(16), Err(TranscodeError::UnexpectedEnd));
}

#[test]
fn transcoder_delivers_bytes_before_error() {
    // 'A', then a lone trailing surrogate: small reads deliver the sound
    // prefix first, then surface the positioned error
    let mut t = Transcoder::from_reader(ByteSource::new(vec![0xFE, 0xFF, 0x00, 0x41, 0xDC, 0x00]));
    assert_eq!(t.read(1).unwrap(), vec![0x41]);
    assert_eq!(t.read(1), Err(TranscodeError::InvalidUtf16 { unit: 0xDC00, pos: 4 }));
}

#[test]
fn chunker_surfaces_error_from_read() {
    // 'a', then a lone trailing surrogate: the sound prefix is delivered,
    // the next pull fails
    let mut c = Chunker::new(Transcoder::from_reader(ByteSource::new(vec![
        0xFE, 0xFF, 0x00, 0x61, 0xDC, 0x00,
    ])));
    assert_eq!(c.read(1).unwrap(), vec![0x61]);
    assert_eq!(c.read(1), Err(TranscodeError::InvalidUtf16 { unit: 0xDC00, pos: 4 }));
}
