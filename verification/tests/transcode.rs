use yamlsplit::encode::Endianness;
use yamlsplit::encode::UTF16Decoder;
use yamlsplit::encode::UTF8Encoder;
use yamlsplit::encoding::Encoding;
use yamlsplit::encoding::Transcoder;
use yamlsplit::source::ByteSource;

/// Writes `text` as UTF-16 with the given byte order, optionally preceded
/// by a byte order mark.
fn utf16_bytes(text: &str, big: bool, bom: bool) -> Vec<u8> {
    let mut units: Vec<u16> = Vec::new();
    if bom {
        units.push(0xFEFF);
    }
    for c in text.chars() {
        let mut buf = [0u16; 2];
        for u in c.encode_utf16(&mut buf).iter() {
            units.push(*u);
        }
    }
    let mut out = Vec::new();
    for u in units {
        let pair = if big { u.to_be_bytes() } else { u.to_le_bytes() };
        out.push(pair[0]);
        out.push(pair[1]);
    }
    out
}

/// Writes `text` as UTF-32 with the given byte order, optionally preceded
/// by a byte order mark.
fn utf32_bytes(text: &str, big: bool, bom: bool) -> Vec<u8> {
    let mut units: Vec<u32> = Vec::new();
    if bom {
        units.push(0xFEFF);
    }
    for c in text.chars() {
        units.push(c as u32);
    }
    let mut out = Vec::new();
    for u in units {
        let quad = if big { u.to_be_bytes() } else { u.to_le_bytes() };
        out.extend_from_slice(&quad);
    }
    out
}

/// Drains a transcoder completely with the given request size.
fn drain(transcoder: &mut Transcoder, max: usize) -> Vec<u8> {
    let mut all = Vec::new();
    loop {
        let bytes = transcoder.read(max).expect("stream decodes cleanly");
        if bytes.is_empty() {
            return all;
        }
        all.extend_from_slice(&bytes);
    }
}

#[test]
fn utf16be_bom_plus_ascii_yields_stripped_utf8() {
    // UTF-16BE byte order mark followed by 'A'
    let mut t = Transcoder::from_reader(ByteSource::new(vec![0xFE, 0xFF, 0x00, 0x41]));
    assert_eq!(t.read(16).unwrap(), vec![0x41]);
    assert_eq!(t.read(16).unwrap(), Vec::<u8>::new());
}

#[test]
fn empty_input_yields_zero_bytes() {
    let mut t = Transcoder::from_reader(ByteSource::new(vec![]));
    assert_eq!(t.read(16).unwrap(), Vec::<u8>::new());
    assert_eq!(t.read(16).unwrap(), Vec::<u8>::new());
}

#[test]
fn zero_length_read_is_valid() {
    let mut t = Transcoder::from_reader(ByteSource::new(vec![0xFE, 0xFF, 0x00, 0x41]));
    assert_eq!(t.read(0).unwrap(), Vec::<u8>::new());
    // the zero-length request consumed nothing
    assert_eq!(t.read(16).unwrap(), vec![0x41]);
}

const SAMPLE: &str = "key: value\n- a\u{E9}\u{4E2D}\u{1F600}\n";

#[test]
fn round_trip_utf16be() {
    for bom in [false, true] {
        let input = utf16_bytes(SAMPLE, true, bom);
        let mut t = Transcoder::from_reader(ByteSource::new(input));
        assert_eq!(drain(&mut t, 16), SAMPLE.as_bytes());
    }
}

#[test]
fn round_trip_utf16le() {
    for bom in [false, true] {
        let input = utf16_bytes(SAMPLE, false, bom);
        let mut t = Transcoder::from_reader(ByteSource::new(input));
        assert_eq!(drain(&mut t, 16), SAMPLE.as_bytes());
    }
}

#[test]
fn round_trip_utf32be() {
    for bom in [false, true] {
        let input = utf32_bytes(SAMPLE, true, bom);
        let mut t = Transcoder::from_reader(ByteSource::new(input));
        assert_eq!(drain(&mut t, 16), SAMPLE.as_bytes());
    }
}

#[test]
fn round_trip_utf32le() {
    for bom in [false, true] {
        let input = utf32_bytes(SAMPLE, false, bom);
        let mut t = Transcoder::from_reader(ByteSource::new(input));
        assert_eq!(drain(&mut t, 16), SAMPLE.as_bytes());
    }
}

#[test]
fn round_trip_utf8() {
    for bom in [false, true] {
        let mut input = Vec::new();
        if bom {
            input.extend_from_slice(&[0xEF, 0xBB, 0xBF]);
        }
        input.extend_from_slice(SAMPLE.as_bytes());
        let mut t = Transcoder::from_reader(ByteSource::new(input));
        assert_eq!(drain(&mut t, 16), SAMPLE.as_bytes());
    }
}

#[test]
fn utf8_bom_is_stripped() {
    // one leading EF BB BF is removed from a UTF-8 stream; only one
    let mut t = Transcoder::from_reader(ByteSource::new(vec![
        0xEF, 0xBB, 0xBF, 0xEF, 0xBB, 0xBF, b'a',
    ]));
    assert_eq!(t.read(16).unwrap(), vec![0xEF, 0xBB, 0xBF, b'a']);
    // an incomplete mark is no mark and stays
    let mut t = Transcoder::from_reader(ByteSource::new(vec![0xEF, 0xBB]));
    assert_eq!(t.read(16).unwrap(), vec![0xEF, 0xBB]);
}

#[test]
fn read_size_independence() {
    // any chunking of the read sizes yields the same concatenated bytes
    let input = utf16_bytes(SAMPLE, true, true);
    let mut big = Transcoder::from_reader(ByteSource::new(input.clone()));
    let whole = drain(&mut big, 4096);
    for max in [1, 2, 3, 5, 7] {
        let mut small = Transcoder::from_reader(ByteSource::new(input.clone()));
        assert_eq!(drain(&mut small, max), whole);
    }
}

#[test]
fn partial_fill_carries_over_character_bytes() {
    // one three-byte character read through a two-byte window; the euro
    // sign has no null byte in UTF-16BE, so the encoding is given outright
    let input = utf16_bytes("\u{20AC}", true, false);
    let mut t = Transcoder::new(ByteSource::new(input), Encoding::UTF16BE);
    assert_eq!(t.read(2).unwrap(), vec![0xE2, 0x82]);
    assert_eq!(t.read(2).unwrap(), vec![0xAC]);
    assert_eq!(t.read(2).unwrap(), Vec::<u8>::new());
}

#[test]
fn known_encoding_skips_detection() {
    // a stream of null bytes decodes as U+0000 characters when the caller
    // names the encoding
    let mut t = Transcoder::new(ByteSource::new(vec![0x00, 0x00]), Encoding::UTF16BE);
    assert_eq!(t.read(16).unwrap(), vec![0x00]);
}

#[test]
fn encoder_pairs_directly_with_a_decoder() {
    // byte order mark, then "hi": the encoder strips the mark
    let decoder = UTF16Decoder::new(
        ByteSource::new(vec![0xFE, 0xFF, 0x00, b'h', 0x00, b'i']),
        Endianness::Big,
    );
    let mut encoder = UTF8Encoder::new(decoder);
    assert_eq!(encoder.read(16).unwrap(), b"hi");
    assert_eq!(encoder.read(16).unwrap(), Vec::<u8>::new());
}
